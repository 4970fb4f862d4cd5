//! Position effect.

use oak_node::double::Double;
use oak_node::handle;
use oak_node::node::NodeBehavior;
use oak_node::nodes::position::{OFFSET_INPUT, PositionNode, TEXTURE_INPUT, create};
use oak_node::rational::Rational;
use oak_node::value::{NodeValue, NodeValueRow, NodeValueTable, ValueType, Vec2};

/// A point value.
fn vec2(v: [f64; 2]) -> NodeValue {
    NodeValue::Vec2(Vec2 { x: Double { bits: v[0].to_bits() }, y: Double { bits: v[1].to_bits() } })
}

/// A row with the given entries.
fn row_of<const N: usize>(entries: [(String, NodeValue); N]) -> NodeValueRow {
    let mut row = NodeValueRow::new();
    for (key, value) in entries {
        row.insert(key, value);
    }
    row
}

fn tex() -> NodeValue {
    NodeValue::Texture(handle::CHandle::null())
}

#[test]
fn position_input_names() {
    let n = PositionNode;
    assert_eq!(n.input_name(TEXTURE_INPUT), "Input");
    assert_eq!(n.input_name(OFFSET_INPUT), "Translate");
    assert_eq!(n.input_name("other_in"), "other_in");
}

#[test]
fn position_create_wires_inputs_and_flags() {
    let (core, behavior) = create();
    assert_eq!(behavior.type_id(), "org.olivevideoeditor.Olive.position");
    assert_eq!(
        core.get_input(OFFSET_INPUT).unwrap().default,
        vec2([0.0, 0.0])
    );
    assert_ne!(
        core.get_input(TEXTURE_INPUT).unwrap().flags & oak_node::input::flags::NOT_KEYFRAMABLE,
        0
    );
    assert_eq!(core.effect_input, TEXTURE_INPUT);
    assert_ne!(core.flags & oak_node::node::flags::VIDEO_EFFECT, 0);
}

#[test]
fn position_value_no_texture_pushes_nothing() {
    let (core, behavior) = create();
    let mut table = NodeValueTable::default();
    behavior.value(
        &core,
        &NodeValueRow::default(),
        Rational::new(0, 1),
        &mut table,
    );
    assert!(table.is_empty());
}

#[test]
fn value_pushes_shader_job_payload() {
    let (core, behavior) = create();
    let inputs = row_of([(TEXTURE_INPUT.to_string(), tex())]);
    let mut table = NodeValueTable::default();
    behavior.value(&core, &inputs, Rational::new(0, 1), &mut table);
    let handle = match table.get(ValueType::Texture) {
        Some(NodeValue::Texture(h)) => h.clone(),
        _ => panic!("texture expected"),
    };
    let payload = handle::boxed_shader(&handle)
        .expect("shader job payload expected");
    assert_eq!(payload.type_id, "org.olivevideoeditor.Olive.position");
    assert_eq!(payload.shader_id, "");
    assert_eq!(payload.iterations, 1);
    assert_eq!(payload.effect_input, TEXTURE_INPUT);
    assert_eq!(payload.iterative_input, TEXTURE_INPUT);
    assert_eq!(payload.time, Rational::new(0, 1));
    assert!(payload.params.contains_key(TEXTURE_INPUT));
    // The offset is not in the row: it resolves from the node default.
    assert_eq!(
        payload.params.get(OFFSET_INPUT),
        Some(&vec2([0.0, 0.0]))
    );
}

#[test]
fn value_row_offset_wins_over_the_node_value() {
    let (core, behavior) = create();
    let inputs = row_of([
        (TEXTURE_INPUT.to_string(), tex()),
        (OFFSET_INPUT.to_string(), vec2([3.0, 2.0])),
    ]);
    let mut table = NodeValueTable::default();
    behavior.value(&core, &inputs, Rational::new(0, 1), &mut table);
    let handle = match table.get(ValueType::Texture) {
        Some(NodeValue::Texture(h)) => h.clone(),
        _ => panic!("texture expected"),
    };
    let payload = handle::boxed_shader(&handle)
        .expect("shader job payload expected");
    assert_eq!(
        payload.params.get(OFFSET_INPUT),
        Some(&vec2([3.0, 2.0]))
    );
}

#[test]
fn shader_declares_the_uniforms_it_reads() {
    let code = PositionNode.shader_code("").unwrap();
    assert!(code.contains("uniform sampler2D tex_in;"));
    assert!(code.contains("uniform vec2 offset_in;"));
    assert!(code.contains("uniform vec2 resolution_in;"));
    assert!(code.contains("vec2 uv = (px - offset + half_res) / resolution_in;"));
    // Off-frame samples are masked to transparent, not clamped.
    assert!(code.contains("frag_color = col * inside;"));
    assert!(!code.contains("switch"));
}

#[test]
fn position_duplicate_clones() {
    let (core, behavior) = create();
    let dup = behavior.duplicate(&core).unwrap();
    assert_eq!(dup.name(), "Position");
}
