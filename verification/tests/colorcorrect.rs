//! Color correction.

use oak_node::double::Double;
use oak_node::handle;
use oak_node::node::{Category, NodeBehavior};
use oak_node::nodes::colorcorrect::{CONTRAST_INPUT, ColorCorrectNode, GAIN_INPUT, GAMMA_INPUT, OFFSET_INPUT, SATURATION_INPUT, TEXTURE_INPUT, create};
use oak_node::rational::Rational;
use oak_node::value::{Color, NodeValue, NodeValueRow, NodeValueTable, ValueType};

/// A float value.
fn float(v: f64) -> NodeValue {
    NodeValue::Float(Double { bits: v.to_bits() })
}

/// A row with the given entries.
fn row_of<const N: usize>(entries: [(String, NodeValue); N]) -> NodeValueRow {
    let mut row = NodeValueRow::new();
    for (key, value) in entries {
        row.insert(key, value);
    }
    row
}

#[test]
fn colorcorrect_input_names() {
    let n = ColorCorrectNode;
    assert_eq!(n.input_name(TEXTURE_INPUT), "Input");
    assert_eq!(n.input_name(SATURATION_INPUT), "Saturation");
    assert_eq!(n.input_name(CONTRAST_INPUT), "Contrast");
    assert_eq!(n.input_name(GAMMA_INPUT), "Gamma");
    assert_eq!(n.input_name(GAIN_INPUT), "Gain");
    assert_eq!(n.input_name(OFFSET_INPUT), "Offset");
    assert_eq!(n.input_name("other_in"), "other_in");
}

#[test]
fn colorcorrect_create_wires_inputs_and_flags() {
    let (core, behavior) = create();
    assert_eq!(
        behavior.type_id(),
        "org.olivevideoeditor.Olive.colorcorrect"
    );
    assert_eq!(behavior.name(), "Color Correct");
    assert_eq!(behavior.categories(), &[Category::Color]);
    let tex = core.get_input(TEXTURE_INPUT).unwrap();
    assert_ne!(tex.flags & oak_node::input::flags::NOT_KEYFRAMABLE, 0);
    assert_eq!(
        core.get_input(SATURATION_INPUT).unwrap().default,
        float(1.0)
    );
    assert_eq!(
        core.get_input(CONTRAST_INPUT).unwrap().default,
        float(1.0)
    );
    assert_eq!(
        core.get_input(GAMMA_INPUT).unwrap().default,
        float(1.0)
    );
    assert_eq!(
        core.get_input(GAIN_INPUT).unwrap().default,
        float(1.0)
    );
    assert_eq!(
        core.get_input(OFFSET_INPUT).unwrap().default,
        float(0.0)
    );
    assert_eq!(core.effect_input, TEXTURE_INPUT);
    assert_ne!(core.flags & oak_node::node::flags::VIDEO_EFFECT, 0);
}

#[test]
fn create_sets_control_ranges() {
    let (core, _) = create();
    let gamma = core.get_input(GAMMA_INPUT).unwrap();
    assert_eq!(gamma.properties[0].1, float(0.2));
    assert_eq!(gamma.properties[1].1, float(5.0));
    let offset = core.get_input(OFFSET_INPUT).unwrap();
    assert_eq!(offset.properties[0].1, float(-1.0));
    assert_eq!(offset.properties[1].1, float(1.0));
}

#[test]
fn colorcorrect_value_no_texture_pushes_nothing() {
    let (core, behavior) = create();
    let mut table = NodeValueTable::default();
    behavior.value(
        &core,
        &NodeValueRow::default(),
        Rational::new(0, 1),
        &mut table,
    );
    assert!(table.is_empty());
}

#[test]
fn colorcorrect_value_with_texture_pushes_shader_job_with_resolved_params() {
    let (core, behavior) = create();
    let inputs = row_of([(
        TEXTURE_INPUT.to_string(),
        NodeValue::Texture(handle::CHandle::null()),
    )]);
    let mut table = NodeValueTable::default();
    behavior.value(&core, &inputs, Rational::new(0, 1), &mut table);
    let Some(NodeValue::Texture(handle)) = table.get(ValueType::Texture) else {
        panic!("expected a texture-typed value");
    };
    let payload =
        handle::boxed_shader(handle)
            .expect("shader job pushed");
    assert_eq!(payload.type_id, "org.olivevideoeditor.Olive.colorcorrect");
    assert_eq!(payload.shader_id, "");
    assert_eq!(payload.iterations, 1);
    assert_eq!(payload.effect_input, TEXTURE_INPUT);
    // Every control is resolved into the row, so the renderer finds
    // a value for each uniform even when the row omitted the input.
    assert_eq!(
        payload.params.get(SATURATION_INPUT),
        Some(&float(1.0))
    );
    assert_eq!(
        payload.params.get(CONTRAST_INPUT),
        Some(&float(1.0))
    );
    assert_eq!(payload.params.get(GAMMA_INPUT), Some(&float(1.0)));
    assert_eq!(payload.params.get(GAIN_INPUT), Some(&float(1.0)));
    assert_eq!(
        payload.params.get(OFFSET_INPUT),
        Some(&float(0.0))
    );
}

#[test]
fn colorcorrect_value_row_values_win_over_defaults() {
    let (mut core, behavior) = create();
    core.set_standard_value(CONTRAST_INPUT, -1, float(1.5));
    let inputs = row_of([
        (
            TEXTURE_INPUT.to_string(),
            NodeValue::Texture(handle::CHandle::null()),
        ),
        (CONTRAST_INPUT.to_string(), float(2.0)),
    ]);
    let mut table = NodeValueTable::default();
    behavior.value(&core, &inputs, Rational::new(0, 1), &mut table);
    let Some(NodeValue::Texture(handle)) = table.get(ValueType::Texture) else {
        panic!("expected a texture-typed value");
    };
    let payload =
        handle::boxed_shader(handle)
            .expect("shader job pushed");
    assert_eq!(
        payload.params.get(CONTRAST_INPUT),
        Some(&float(2.0))
    );
}

#[test]
fn colorcorrect_shader_declares_uniforms_and_avoids_switch() {
    let code = ColorCorrectNode.shader_code("").unwrap();
    for uniform in [
        "tex_in",
        SATURATION_INPUT,
        CONTRAST_INPUT,
        GAMMA_INPUT,
        GAIN_INPUT,
        OFFSET_INPUT,
    ] {
        assert!(code.contains(uniform), "uniform {uniform} declared");
    }
    assert!(code.contains("ove_texcoord"));
    assert!(code.contains("frag_color"));
    assert!(!code.contains("switch"), "naga rejects GLSL switch");
}

#[test]
fn colorcorrect_duplicate_clones() {
    let (core, behavior) = create();
    let dup = behavior.duplicate(&core).unwrap();
    assert_eq!(dup.name(), "Color Correct");
    assert_eq!(dup.type_id(), "org.olivevideoeditor.Olive.colorcorrect");
}
