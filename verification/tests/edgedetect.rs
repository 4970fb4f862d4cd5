//! Edge detection.

use oak_node::double::Double;
use oak_node::handle;
use oak_node::jobs::ShaderJobPayload;
use oak_node::jobs;
use oak_node::node::{Category, NodeBehavior, NodeCore};
use oak_node::nodes::edgedetect::{EdgeDetectNode, TEXTURE_INPUT, THRESHOLD_INPUT, create};
use oak_node::rational::Rational;
use oak_node::value::{NodeValue, NodeValueRow, NodeValueTable, ValueType};

/// A float value.
fn float(v: f64) -> NodeValue {
    NodeValue::Float(Double { bits: v.to_bits() })
}

/// A row with the given entries.
fn row_of<const N: usize>(entries: [(String, NodeValue); N]) -> NodeValueRow {
    let mut row = NodeValueRow::new();
    for (key, value) in entries {
        row.insert(key, value);
    }
    row
}

fn tex() -> NodeValue {
    NodeValue::Texture(handle::CHandle::null())
}

fn run(core: &NodeCore, inputs: &NodeValueRow) -> ShaderJobPayload {
    let behavior = EdgeDetectNode;
    let mut table = NodeValueTable::default();
    behavior.value(core, inputs, Rational::new(0, 1), &mut table);
    let Some(NodeValue::Texture(h)) = table.get(ValueType::Texture) else {
        panic!("shader job expected");
    };
    jobs::shader_job(h)
        .expect("shader job payload boxed")
        .clone()
}

#[test]
fn edgedetect_input_names() {
    let n = EdgeDetectNode;
    assert_eq!(n.input_name(TEXTURE_INPUT), "Input");
    assert_eq!(n.input_name(THRESHOLD_INPUT), "Threshold");
    assert_eq!(n.input_name("other"), "other");
}

#[test]
fn edgedetect_create_wires_inputs_and_flags() {
    let (core, behavior) = create();
    assert_eq!(behavior.type_id(), "org.olivevideoeditor.Olive.edgedetect");
    assert_eq!(behavior.categories(), &[Category::Filter]);
    assert_eq!(core.effect_input, TEXTURE_INPUT);
    assert_ne!(core.flags & oak_node::node::flags::VIDEO_EFFECT, 0);
    let threshold = core.get_input(THRESHOLD_INPUT).expect("threshold input");
    assert_eq!(threshold.default, float(0.0));
    assert!(threshold
        .properties
        .iter()
        .any(|(k, v)| k == "min" && *v == float(0.0)));
}

#[test]
fn edgedetect_value_no_texture_pushes_nothing() {
    let (core, behavior) = create();
    let mut table = NodeValueTable::default();
    behavior.value(
        &core,
        &NodeValueRow::default(),
        Rational::new(0, 1),
        &mut table,
    );
    assert!(table.is_empty());
}

#[test]
fn value_pushes_job_with_threshold_default() {
    let (core, _) = create();
    let inputs = row_of([(TEXTURE_INPUT.to_string(), tex())]);
    let payload = run(&core, &inputs);
    assert_eq!(payload.type_id, "org.olivevideoeditor.Olive.edgedetect");
    assert_eq!(payload.shader_id, "");
    assert_eq!(payload.effect_input, TEXTURE_INPUT);
    assert_eq!(payload.iterations, 1);
    assert_eq!(payload.iterative_input, "");
    assert_eq!(
        payload.params.get(THRESHOLD_INPUT),
        Some(&float(0.0))
    );
}

#[test]
fn value_takes_threshold_from_row() {
    let (core, _) = create();
    let inputs = row_of([
        (TEXTURE_INPUT.to_string(), tex()),
        (THRESHOLD_INPUT.to_string(), float(0.5)),
    ]);
    let payload = run(&core, &inputs);
    assert_eq!(
        payload.params.get(THRESHOLD_INPUT),
        Some(&float(0.5))
    );
}

#[test]
fn value_takes_threshold_from_core() {
    let (mut core, _) = create();
    core.set_standard_value(THRESHOLD_INPUT, -1, float(0.75));
    let inputs = row_of([(TEXTURE_INPUT.to_string(), tex())]);
    let payload = run(&core, &inputs);
    assert_eq!(
        payload.params.get(THRESHOLD_INPUT),
        Some(&float(0.75))
    );
}

#[test]
fn shader_code_is_sobel_without_switch() {
    let n = EdgeDetectNode;
    let glsl = n.shader_code("").unwrap();
    assert!(glsl.contains("uniform vec2 resolution_in;"));
    assert!(glsl.contains("sqrt(gx * gx + gy * gy)"));
    assert!(glsl.contains("step(vec3(threshold_in), magnitude)"));
    assert!(!glsl.contains("switch"));
}

#[test]
fn edgedetect_duplicate_clones_behavior() {
    let (core, behavior) = create();
    let dup = behavior.duplicate(&core).unwrap();
    assert_eq!(dup.name(), "Edge Detect");
}
