//! Erode filter.

use oak_node::double::Double;
use oak_node::handle;
use oak_node::node::{Category, NodeBehavior};
use oak_node::nodes::erode::{ErodeNode, MAX_RADIUS, RADIUS_INPUT, TEXTURE_INPUT, create};
use oak_node::rational::Rational;
use oak_node::value::{NodeValue, NodeValueRow, NodeValueTable, ValueType};

/// A float value.
fn float(v: f64) -> NodeValue {
    NodeValue::Float(Double { bits: v.to_bits() })
}

/// A row with the given entries.
fn row_of<const N: usize>(entries: [(String, NodeValue); N]) -> NodeValueRow {
    let mut row = NodeValueRow::new();
    for (key, value) in entries {
        row.insert(key, value);
    }
    row
}

fn tex() -> NodeValue {
    NodeValue::Texture(handle::CHandle::null())
}

#[test]
fn erode_input_names() {
    let n = ErodeNode;
    assert_eq!(n.input_name(TEXTURE_INPUT), "Input");
    assert_eq!(n.input_name(RADIUS_INPUT), "Radius");
    assert_eq!(n.input_name("other"), "other");
}

#[test]
fn erode_create_wires_inputs_and_flags() {
    let (core, behavior) = create();
    assert_eq!(behavior.type_id(), "org.olivevideoeditor.Olive.erode");
    assert_eq!(behavior.categories(), &[Category::Filter]);
    assert_eq!(core.effect_input, TEXTURE_INPUT);
    assert_ne!(core.flags & oak_node::node::flags::VIDEO_EFFECT, 0);
    let radius = core.get_input(RADIUS_INPUT).expect("radius input");
    assert_eq!(radius.default, float(1.0));
    assert!(radius
        .properties
        .iter()
        .any(|(k, v)| k == "min" && *v == float(0.0)));
    assert!(radius
        .properties
        .iter()
        .any(|(k, v)| k == "max" && *v == NodeValue::Float(Double { bits: MAX_RADIUS })));
}

#[test]
fn erode_value_no_texture_pushes_nothing() {
    let (core, behavior) = create();
    let mut table = NodeValueTable::default();
    behavior.value(
        &core,
        &NodeValueRow::default(),
        Rational::new(0, 1),
        &mut table,
    );
    assert!(table.is_empty());
}

#[test]
fn value_zero_radius_passes_through() {
    let (core, behavior) = create();
    let tex = tex();
    let inputs = row_of([
        (TEXTURE_INPUT.to_string(), tex.clone()),
        (RADIUS_INPUT.to_string(), float(0.0)),
    ]);
    let mut table = NodeValueTable::default();
    behavior.value(&core, &inputs, Rational::new(0, 1), &mut table);
    assert_eq!(table.get(ValueType::Texture), Some(&tex));
}

#[test]
fn value_pushes_single_pass_job() {
    let (core, behavior) = create();
    let inputs = row_of([
        (TEXTURE_INPUT.to_string(), tex()),
        (RADIUS_INPUT.to_string(), float(2.0)),
    ]);
    let mut table = NodeValueTable::default();
    behavior.value(&core, &inputs, Rational::new(0, 1), &mut table);
    let Some(NodeValue::Texture(h)) = table.get(ValueType::Texture) else {
        panic!("shader job expected");
    };
    let payload = handle::boxed_shader(h)
        .expect("shader job payload boxed");
    assert_eq!(payload.type_id, "org.olivevideoeditor.Olive.erode");
    assert_eq!(payload.shader_id, "");
    assert_eq!(payload.effect_input, TEXTURE_INPUT);
    assert_eq!(payload.iterations, 1);
    assert_eq!(payload.iterative_input, "");
    assert_eq!(
        payload.params.get(RADIUS_INPUT),
        Some(&float(2.0))
    );
}

#[test]
fn value_default_radius_pushes_job() {
    let (core, behavior) = create();
    let inputs = row_of([(TEXTURE_INPUT.to_string(), tex())]);
    let mut table = NodeValueTable::default();
    behavior.value(&core, &inputs, Rational::new(0, 1), &mut table);
    let Some(NodeValue::Texture(h)) = table.get(ValueType::Texture) else {
        panic!("shader job expected");
    };
    let payload = handle::boxed_shader(h)
        .expect("shader job payload boxed");
    assert_eq!(
        payload.params.get(RADIUS_INPUT),
        Some(&float(1.0))
    );
}

#[test]
fn shader_code_is_single_pass_min_without_switch() {
    let n = ErodeNode;
    let glsl = n.shader_code("").unwrap();
    assert!(glsl.contains("uniform vec2 resolution_in;"));
    assert!(glsl.contains("acc = min(acc, texture(tex_in, uv));"));
    assert!(glsl.contains("int(clamp(radius_in, 0.0, 7.0) + 0.5)"));
    assert!(!glsl.contains("switch"));
}

#[test]
fn erode_duplicate_clones_behavior() {
    let (core, behavior) = create();
    let dup = behavior.duplicate(&core).unwrap();
    assert_eq!(dup.name(), "Erode");
}
