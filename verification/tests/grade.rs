//! Grade effect.

use oak_node::double::Double;
use oak_node::handle;
use oak_node::jobs;
use oak_node::node::{Category, NodeBehavior};
use oak_node::nodes::grade::{BLACKPOINT_INPUT, BLACK_INPUT, GAMMA_INPUT, GradeNode, TEXTURE_INPUT, WHITEPOINT_INPUT, WHITE_INPUT, create};
use oak_node::rational::Rational;
use oak_node::value::{NodeValue, NodeValueRow, NodeValueTable, ValueType};

/// A float value.
fn float(v: f64) -> NodeValue {
    NodeValue::Float(Double { bits: v.to_bits() })
}

/// A row with the given entries.
fn row_of<const N: usize>(entries: [(String, NodeValue); N]) -> NodeValueRow {
    let mut row = NodeValueRow::new();
    for (key, value) in entries {
        row.insert(key, value);
    }
    row
}

#[test]
fn grade_input_names() {
    let n = GradeNode;
    assert_eq!(n.input_name(TEXTURE_INPUT), "Input");
    assert_eq!(n.input_name(BLACKPOINT_INPUT), "Black Point");
    assert_eq!(n.input_name(WHITEPOINT_INPUT), "White Point");
    assert_eq!(n.input_name(BLACK_INPUT), "Black Output");
    assert_eq!(n.input_name(WHITE_INPUT), "White Output");
    assert_eq!(n.input_name(GAMMA_INPUT), "Gamma");
    assert_eq!(n.input_name("other_in"), "other_in");
}

#[test]
fn grade_create_wires_inputs_and_flags() {
    let (core, behavior) = create();
    assert_eq!(behavior.type_id(), "org.olivevideoeditor.Olive.grade");
    assert_eq!(behavior.name(), "Grade");
    assert_eq!(behavior.categories(), &[Category::Color]);
    let tex = core.get_input(TEXTURE_INPUT).unwrap();
    assert_ne!(tex.flags & oak_node::input::flags::NOT_KEYFRAMABLE, 0);
    assert_eq!(
        core.get_input(BLACKPOINT_INPUT).unwrap().default,
        float(0.0)
    );
    assert_eq!(
        core.get_input(WHITEPOINT_INPUT).unwrap().default,
        float(1.0)
    );
    assert_eq!(
        core.get_input(BLACK_INPUT).unwrap().default,
        float(0.0)
    );
    assert_eq!(
        core.get_input(WHITE_INPUT).unwrap().default,
        float(1.0)
    );
    assert_eq!(
        core.get_input(GAMMA_INPUT).unwrap().default,
        float(1.0)
    );
    assert_eq!(core.effect_input, TEXTURE_INPUT);
    assert_ne!(core.flags & oak_node::node::flags::VIDEO_EFFECT, 0);
}

#[test]
fn grade_value_no_texture_pushes_nothing() {
    let (core, behavior) = create();
    let mut table = NodeValueTable::default();
    behavior.value(
        &core,
        &NodeValueRow::default(),
        Rational::new(0, 1),
        &mut table,
    );
    assert!(table.is_empty());
}

#[test]
fn grade_value_with_texture_pushes_shader_job_with_resolved_params() {
    let (core, behavior) = create();
    let inputs = row_of([(
        TEXTURE_INPUT.to_string(),
        NodeValue::Texture(handle::CHandle::null()),
    )]);
    let mut table = NodeValueTable::default();
    behavior.value(&core, &inputs, Rational::new(0, 1), &mut table);
    let Some(NodeValue::Texture(handle)) = table.get(ValueType::Texture) else {
        panic!("expected a texture-typed value");
    };
    let payload =
        jobs::shader_job(handle)
            .expect("shader job pushed");
    assert_eq!(payload.type_id, "org.olivevideoeditor.Olive.grade");
    assert_eq!(payload.effect_input, TEXTURE_INPUT);
    assert_eq!(
        payload.params.get(BLACKPOINT_INPUT),
        Some(&float(0.0))
    );
    assert_eq!(
        payload.params.get(WHITEPOINT_INPUT),
        Some(&float(1.0))
    );
    assert_eq!(payload.params.get(BLACK_INPUT), Some(&float(0.0)));
    assert_eq!(payload.params.get(WHITE_INPUT), Some(&float(1.0)));
    assert_eq!(payload.params.get(GAMMA_INPUT), Some(&float(1.0)));
}

#[test]
fn grade_value_row_values_win_over_defaults() {
    let (mut core, behavior) = create();
    core.set_standard_value(BLACKPOINT_INPUT, -1, float(0.0));
    let inputs = row_of([
        (
            TEXTURE_INPUT.to_string(),
            NodeValue::Texture(handle::CHandle::null()),
        ),
        (BLACKPOINT_INPUT.to_string(), float(0.1)),
    ]);
    let mut table = NodeValueTable::default();
    behavior.value(&core, &inputs, Rational::new(0, 1), &mut table);
    let Some(NodeValue::Texture(handle)) = table.get(ValueType::Texture) else {
        panic!("expected a texture-typed value");
    };
    let payload =
        jobs::shader_job(handle)
            .expect("shader job pushed");
    assert_eq!(
        payload.params.get(BLACKPOINT_INPUT),
        Some(&float(0.1))
    );
}

#[test]
fn grade_shader_declares_uniforms_and_avoids_switch() {
    let code = GradeNode.shader_code("").unwrap();
    for uniform in [
        "tex_in",
        BLACKPOINT_INPUT,
        WHITEPOINT_INPUT,
        BLACK_INPUT,
        WHITE_INPUT,
        GAMMA_INPUT,
    ] {
        assert!(code.contains(uniform), "uniform {uniform} declared");
    }
    assert!(code.contains("ove_texcoord"));
    assert!(code.contains("frag_color"));
    assert!(!code.contains("switch"), "naga rejects GLSL switch");
}

#[test]
fn grade_duplicate_clones() {
    let (core, behavior) = create();
    let dup = behavior.duplicate(&core).unwrap();
    assert_eq!(dup.name(), "Grade");
    assert_eq!(dup.type_id(), "org.olivevideoeditor.Olive.grade");
}
