//! Directional blur.

use oak_node::double::Double;
use oak_node::handle;
use oak_node::jobs::ShaderJobPayload;
use oak_node::node::{Category, NodeBehavior, NodeCore};
use oak_node::nodes::dirblur::{AMOUNT_INPUT, ANGLE_INPUT, DirBlurNode, TAP_COUNT, TEXTURE_INPUT, create};
use oak_node::rational::Rational;
use oak_node::value::{NodeValue, NodeValueRow, NodeValueTable, ValueType};

/// A float value.
fn float(v: f64) -> NodeValue {
    NodeValue::Float(Double { bits: v.to_bits() })
}

/// A row with the given entries.
fn row_of<const N: usize>(entries: [(String, NodeValue); N]) -> NodeValueRow {
    let mut row = NodeValueRow::new();
    for (key, value) in entries {
        row.insert(key, value);
    }
    row
}

fn tex() -> NodeValue {
    NodeValue::Texture(handle::CHandle::null())
}

fn run(core: &NodeCore, inputs: &NodeValueRow) -> ShaderJobPayload {
    let behavior = DirBlurNode;
    let mut table = NodeValueTable::default();
    behavior.value(core, inputs, Rational::new(0, 1), &mut table);
    let Some(NodeValue::Texture(h)) = table.get(ValueType::Texture) else {
        panic!("shader job expected");
    };
    handle::boxed_shader(h)
        .expect("shader job payload boxed")
        .clone()
}

#[test]
fn dirblur_input_names() {
    let n = DirBlurNode;
    assert_eq!(n.input_name(TEXTURE_INPUT), "Input");
    assert_eq!(n.input_name(AMOUNT_INPUT), "Amount");
    assert_eq!(n.input_name(ANGLE_INPUT), "Angle");
    assert_eq!(n.input_name("other"), "other");
}

#[test]
fn dirblur_create_wires_inputs_and_flags() {
    let (core, behavior) = create();
    assert_eq!(behavior.type_id(), "org.olivevideoeditor.Olive.dirblur");
    assert_eq!(behavior.name(), "Directional Blur");
    assert_eq!(behavior.categories(), &[Category::Filter]);
    assert_eq!(core.effect_input, TEXTURE_INPUT);
    assert_ne!(core.flags & oak_node::node::flags::VIDEO_EFFECT, 0);

    let amount = core.get_input(AMOUNT_INPUT).expect("amount input");
    assert_eq!(amount.default, float(0.0));
    assert!(amount
        .properties
        .iter()
        .any(|(k, v)| k == "min" && *v == float(0.0)));

    let angle = core.get_input(ANGLE_INPUT).expect("angle input");
    assert_eq!(angle.default, float(0.0));
}

#[test]
fn dirblur_value_no_texture_pushes_nothing() {
    let (core, behavior) = create();
    let mut table = NodeValueTable::default();
    behavior.value(
        &core,
        &NodeValueRow::default(),
        Rational::new(0, 1),
        &mut table,
    );
    assert!(table.is_empty());
}

#[test]
fn value_zero_amount_still_pushes_job_with_defaults() {
    let (core, _) = create();
    let inputs = row_of([(TEXTURE_INPUT.to_string(), tex())]);
    let payload = run(&core, &inputs);
    assert_eq!(payload.type_id, "org.olivevideoeditor.Olive.dirblur");
    assert_eq!(payload.shader_id, "");
    assert_eq!(payload.effect_input, TEXTURE_INPUT);
    assert_eq!(payload.iterations, 1);
    assert_eq!(payload.iterative_input, "");
    assert_eq!(
        payload.params.get(AMOUNT_INPUT),
        Some(&float(0.0)),
        "the blur amount rides in the job params"
    );
    assert_eq!(
        payload.params.get(ANGLE_INPUT),
        Some(&float(0.0))
    );
}

#[test]
fn value_takes_params_from_row() {
    let (core, _) = create();
    let inputs = row_of([
        (TEXTURE_INPUT.to_string(), tex()),
        (AMOUNT_INPUT.to_string(), float(12.0)),
        (ANGLE_INPUT.to_string(), float(90.0)),
    ]);
    let payload = run(&core, &inputs);
    assert_eq!(
        payload.params.get(AMOUNT_INPUT),
        Some(&float(12.0))
    );
    assert_eq!(
        payload.params.get(ANGLE_INPUT),
        Some(&float(90.0))
    );
}

#[test]
fn value_takes_params_from_core() {
    let (mut core, _) = create();
    core.set_standard_value(AMOUNT_INPUT, -1, float(4.0));
    core.set_standard_value(ANGLE_INPUT, -1, float(-45.0));
    let inputs = row_of([(TEXTURE_INPUT.to_string(), tex())]);
    let payload = run(&core, &inputs);
    assert_eq!(
        payload.params.get(AMOUNT_INPUT),
        Some(&float(4.0))
    );
    assert_eq!(
        payload.params.get(ANGLE_INPUT),
        Some(&float(-45.0))
    );
}

#[test]
fn shader_code_is_centered_tap_average_without_switch() {
    let n = DirBlurNode;
    let glsl = n.shader_code("").unwrap();
    assert!(glsl.contains("uniform float amount_in;"));
    assert!(glsl.contains("uniform float angle_in;"));
    assert!(glsl.contains("uniform vec2 resolution_in;"));
    assert!(glsl.contains("#define TAP_COUNT 16"));
    assert!(glsl.contains("float(TAP_COUNT - 1) * 0.5"));
    assert!(glsl.contains("frag_color = sum / float(TAP_COUNT);"));
    assert!(!glsl.contains("switch"));
}

#[test]
fn tap_count_matches_shader() {
    let glsl = DirBlurNode.shader_code("").unwrap();
    assert!(
        glsl.contains(&format!("#define TAP_COUNT {TAP_COUNT}")),
        "the shader and the Rust-side tap count must agree"
    );
}

#[test]
fn dirblur_duplicate_clones_behavior() {
    let (core, behavior) = create();
    let dup = behavior.duplicate(&core).unwrap();
    assert_eq!(dup.name(), "Directional Blur");
}
