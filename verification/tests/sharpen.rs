//! Sharpen filter.

use oak_node::double::Double;
use oak_node::handle;
use oak_node::jobs::ShaderJobPayload;
use oak_node::node::{Category, NodeBehavior, NodeCore};
use oak_node::nodes::sharpen::{AMOUNT_INPUT, SharpenNode, TEXTURE_INPUT, create};
use oak_node::rational::Rational;
use oak_node::value::{NodeValue, NodeValueRow, NodeValueTable, ValueType};

/// A float value.
fn float(v: f64) -> NodeValue {
    NodeValue::Float(Double { bits: v.to_bits() })
}

/// A row with the given entries.
fn row_of<const N: usize>(entries: [(String, NodeValue); N]) -> NodeValueRow {
    let mut row = NodeValueRow::new();
    for (key, value) in entries {
        row.insert(key, value);
    }
    row
}

fn tex() -> NodeValue {
    NodeValue::Texture(handle::CHandle::null())
}

fn run(core: &NodeCore, inputs: &NodeValueRow) -> ShaderJobPayload {
    let behavior = SharpenNode;
    let mut table = NodeValueTable::default();
    behavior.value(core, inputs, Rational::new(0, 1), &mut table);
    let Some(NodeValue::Texture(h)) = table.get(ValueType::Texture) else {
        panic!("shader job expected");
    };
    handle::boxed_shader(h)
        .expect("shader job payload boxed")
        .clone()
}

#[test]
fn sharpen_input_names() {
    let n = SharpenNode;
    assert_eq!(n.input_name(TEXTURE_INPUT), "Input");
    assert_eq!(n.input_name(AMOUNT_INPUT), "Amount");
    assert_eq!(n.input_name("other"), "other");
}

#[test]
fn sharpen_create_wires_inputs_and_flags() {
    let (core, behavior) = create();
    assert_eq!(behavior.type_id(), "org.olivevideoeditor.Olive.sharpen");
    assert_eq!(behavior.name(), "Sharpen");
    assert_eq!(behavior.categories(), &[Category::Filter]);
    assert_eq!(core.effect_input, TEXTURE_INPUT);
    assert_ne!(core.flags & oak_node::node::flags::VIDEO_EFFECT, 0);
    assert_eq!(
        core.get_input(AMOUNT_INPUT).expect("amount input").default,
        float(1.0)
    );
}

#[test]
fn sharpen_value_no_texture_pushes_nothing() {
    let (core, behavior) = create();
    let mut table = NodeValueTable::default();
    behavior.value(
        &core,
        &NodeValueRow::default(),
        Rational::new(0, 1),
        &mut table,
    );
    assert!(table.is_empty());
}

#[test]
fn value_pushes_job_with_default_amount() {
    let (core, _) = create();
    let inputs = row_of([(TEXTURE_INPUT.to_string(), tex())]);
    let payload = run(&core, &inputs);
    assert_eq!(payload.type_id, "org.olivevideoeditor.Olive.sharpen");
    assert_eq!(payload.shader_id, "");
    assert_eq!(payload.effect_input, TEXTURE_INPUT);
    assert_eq!(payload.iterations, 1);
    assert_eq!(payload.iterative_input, "");
    assert_eq!(
        payload.params.get(AMOUNT_INPUT),
        Some(&float(1.0)),
        "the sharpening amount rides in the job params"
    );
}

#[test]
fn value_takes_amount_from_row() {
    let (core, _) = create();
    let inputs = row_of([
        (TEXTURE_INPUT.to_string(), tex()),
        (AMOUNT_INPUT.to_string(), float(0.0)),
    ]);
    let payload = run(&core, &inputs);
    assert_eq!(
        payload.params.get(AMOUNT_INPUT),
        Some(&float(0.0))
    );
}

#[test]
fn value_takes_amount_from_core() {
    let (mut core, _) = create();
    core.set_standard_value(AMOUNT_INPUT, -1, float(2.5));
    let inputs = row_of([(TEXTURE_INPUT.to_string(), tex())]);
    let payload = run(&core, &inputs);
    assert_eq!(
        payload.params.get(AMOUNT_INPUT),
        Some(&float(2.5))
    );
}

#[test]
fn shader_code_is_inline_unsharp_mask_without_switch() {
    let n = SharpenNode;
    let glsl = n.shader_code("").unwrap();
    assert!(glsl.contains("uniform float amount_in;"));
    assert!(glsl.contains("uniform vec2 resolution_in;"));
    assert!(glsl.contains("#define KERNEL_RADIUS 1"));
    assert!(glsl.contains("frag_color = center + amount_in * (center - blurred);"));
    assert!(!glsl.contains("switch"));
}

#[test]
fn sharpen_duplicate_clones_behavior() {
    let (core, behavior) = create();
    let dup = behavior.duplicate(&core).unwrap();
    assert_eq!(dup.name(), "Sharpen");
}
