//! Clamp effect.

use oak_node::double::Double;
use oak_node::handle;
use oak_node::node::{Category, NodeBehavior};
use oak_node::nodes::clamp::{ClampNode, MAX_INPUT, MIN_INPUT, TEXTURE_INPUT, create};
use oak_node::rational::Rational;
use oak_node::value::{NodeValue, NodeValueRow, NodeValueTable, ValueType};

/// A float value.
fn float(v: f64) -> NodeValue {
    NodeValue::Float(Double { bits: v.to_bits() })
}

/// A row with the given entries.
fn row_of<const N: usize>(entries: [(String, NodeValue); N]) -> NodeValueRow {
    let mut row = NodeValueRow::new();
    for (key, value) in entries {
        row.insert(key, value);
    }
    row
}

#[test]
fn clamp_input_names() {
    let n = ClampNode;
    assert_eq!(n.input_name(TEXTURE_INPUT), "Input");
    assert_eq!(n.input_name(MIN_INPUT), "Min");
    assert_eq!(n.input_name(MAX_INPUT), "Max");
    assert_eq!(n.input_name("other_in"), "other_in");
}

#[test]
fn clamp_create_wires_inputs_and_flags() {
    let (core, behavior) = create();
    assert_eq!(behavior.type_id(), "org.olivevideoeditor.Olive.clamp");
    assert_eq!(behavior.name(), "Clamp");
    assert_eq!(behavior.categories(), &[Category::Color]);
    let tex = core.get_input(TEXTURE_INPUT).unwrap();
    assert_ne!(tex.flags & oak_node::input::flags::NOT_KEYFRAMABLE, 0);
    assert_eq!(
        core.get_input(MIN_INPUT).unwrap().default,
        float(0.0)
    );
    assert_eq!(
        core.get_input(MAX_INPUT).unwrap().default,
        float(1.0)
    );
    assert_eq!(core.effect_input, TEXTURE_INPUT);
    assert_ne!(core.flags & oak_node::node::flags::VIDEO_EFFECT, 0);
}

#[test]
fn clamp_value_no_texture_pushes_nothing() {
    let (core, behavior) = create();
    let mut table = NodeValueTable::default();
    behavior.value(
        &core,
        &NodeValueRow::default(),
        Rational::new(0, 1),
        &mut table,
    );
    assert!(table.is_empty());
}

#[test]
fn clamp_value_with_texture_pushes_shader_job_with_resolved_params() {
    let (core, behavior) = create();
    let inputs = row_of([(
        TEXTURE_INPUT.to_string(),
        NodeValue::Texture(handle::CHandle::null()),
    )]);
    let mut table = NodeValueTable::default();
    behavior.value(&core, &inputs, Rational::new(0, 1), &mut table);
    let Some(NodeValue::Texture(handle)) = table.get(ValueType::Texture) else {
        panic!("expected a texture-typed value");
    };
    let payload =
        handle::boxed_shader(handle)
            .expect("shader job pushed");
    assert_eq!(payload.type_id, "org.olivevideoeditor.Olive.clamp");
    assert_eq!(payload.effect_input, TEXTURE_INPUT);
    assert_eq!(payload.params.get(MIN_INPUT), Some(&float(0.0)));
    assert_eq!(payload.params.get(MAX_INPUT), Some(&float(1.0)));
}

#[test]
fn clamp_value_row_values_win_over_defaults() {
    let (mut core, behavior) = create();
    core.set_standard_value(MAX_INPUT, -1, float(1.0));
    let inputs = row_of([
        (
            TEXTURE_INPUT.to_string(),
            NodeValue::Texture(handle::CHandle::null()),
        ),
        (MAX_INPUT.to_string(), float(0.5)),
    ]);
    let mut table = NodeValueTable::default();
    behavior.value(&core, &inputs, Rational::new(0, 1), &mut table);
    let Some(NodeValue::Texture(handle)) = table.get(ValueType::Texture) else {
        panic!("expected a texture-typed value");
    };
    let payload =
        handle::boxed_shader(handle)
            .expect("shader job pushed");
    assert_eq!(payload.params.get(MAX_INPUT), Some(&float(0.5)));
}

#[test]
fn clamp_shader_declares_uniforms_and_avoids_switch() {
    let code = ClampNode.shader_code("").unwrap();
    for uniform in ["tex_in", MIN_INPUT, MAX_INPUT] {
        assert!(code.contains(uniform), "uniform {uniform} declared");
    }
    assert!(code.contains("ove_texcoord"));
    assert!(code.contains("frag_color"));
    assert!(!code.contains("switch"), "naga rejects GLSL switch");
}

#[test]
fn clamp_duplicate_clones() {
    let (core, behavior) = create();
    let dup = behavior.duplicate(&core).unwrap();
    assert_eq!(dup.name(), "Clamp");
    assert_eq!(dup.type_id(), "org.olivevideoeditor.Olive.clamp");
}
