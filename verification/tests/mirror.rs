//! Mirror effect.

use oak_node::handle;
use oak_node::node::NodeBehavior;
use oak_node::nodes::mirror::{HORIZONTAL_INPUT, MirrorNode, TEXTURE_INPUT, VERTICAL_INPUT, create};
use oak_node::rational::Rational;
use oak_node::value::{NodeValue, NodeValueRow, NodeValueTable, ValueType};

/// A row with the given entries.
fn row_of<const N: usize>(entries: [(String, NodeValue); N]) -> NodeValueRow {
    let mut row = NodeValueRow::new();
    for (key, value) in entries {
        row.insert(key, value);
    }
    row
}

fn tex() -> NodeValue {
    NodeValue::Texture(handle::CHandle::null())
}

#[test]
fn mirror_input_names() {
    let n = MirrorNode;
    assert_eq!(n.input_name(TEXTURE_INPUT), "Input");
    assert_eq!(n.input_name(HORIZONTAL_INPUT), "Horizontal (flop)");
    assert_eq!(n.input_name(VERTICAL_INPUT), "Vertical (flip)");
    assert_eq!(n.input_name("other_in"), "other_in");
}

#[test]
fn mirror_create_wires_inputs_and_flags() {
    let (core, behavior) = create();
    assert_eq!(behavior.type_id(), "org.olivevideoeditor.Olive.mirror");
    assert_eq!(
        core.get_input(HORIZONTAL_INPUT).unwrap().default,
        NodeValue::Boolean(false)
    );
    assert_eq!(
        core.get_input(VERTICAL_INPUT).unwrap().default,
        NodeValue::Boolean(false)
    );
    assert_ne!(
        core.get_input(TEXTURE_INPUT).unwrap().flags & oak_node::input::flags::NOT_KEYFRAMABLE,
        0
    );
    assert_eq!(core.effect_input, TEXTURE_INPUT);
    assert_ne!(core.flags & oak_node::node::flags::VIDEO_EFFECT, 0);
}

#[test]
fn mirror_value_no_texture_pushes_nothing() {
    let (core, behavior) = create();
    let mut table = NodeValueTable::default();
    behavior.value(
        &core,
        &NodeValueRow::default(),
        Rational::new(0, 1),
        &mut table,
    );
    assert!(table.is_empty());
}

#[test]
fn value_no_mirror_passes_texture_through() {
    let (core, behavior) = create();
    let tex = tex();
    let inputs = row_of([(TEXTURE_INPUT.to_string(), tex.clone())]);
    let mut table = NodeValueTable::default();
    behavior.value(&core, &inputs, Rational::new(0, 1), &mut table);
    assert_eq!(table.get(ValueType::Texture), Some(&tex));
}

#[test]
fn value_translates_flag_names_to_the_flip_uniforms() {
    let (core, behavior) = create();
    let inputs = row_of([
        (TEXTURE_INPUT.to_string(), tex()),
        (HORIZONTAL_INPUT.to_string(), NodeValue::Boolean(true)),
        (VERTICAL_INPUT.to_string(), NodeValue::Boolean(false)),
    ]);
    let mut table = NodeValueTable::default();
    behavior.value(&core, &inputs, Rational::new(0, 1), &mut table);
    let handle = match table.get(ValueType::Texture) {
        Some(NodeValue::Texture(h)) => h.clone(),
        _ => panic!("texture expected"),
    };
    let payload = handle::boxed_shader(&handle)
        .expect("shader job payload expected");
    assert_eq!(payload.type_id, "org.olivevideoeditor.Olive.mirror");
    assert_eq!(payload.shader_id, "");
    assert_eq!(payload.iterations, 1);
    assert_eq!(payload.effect_input, TEXTURE_INPUT);
    assert_eq!(payload.iterative_input, TEXTURE_INPUT);
    // The shader reads `horiz_in`/`vert_in`; the node's own keys are gone.
    assert_eq!(
        payload
            .params
            .get(oak_node::nodes::flipdistortnode::HORIZONTAL_INPUT),
        Some(&NodeValue::Boolean(true))
    );
    assert_eq!(
        payload
            .params
            .get(oak_node::nodes::flipdistortnode::VERTICAL_INPUT),
        Some(&NodeValue::Boolean(false))
    );
    assert!(!payload.params.contains_key(HORIZONTAL_INPUT));
    assert!(!payload.params.contains_key(VERTICAL_INPUT));
}

#[test]
fn value_connected_flags_win_over_the_node_values() {
    let (mut core, behavior) = create();
    core.set_standard_value(HORIZONTAL_INPUT, -1, NodeValue::Boolean(false));
    core.set_standard_value(VERTICAL_INPUT, -1, NodeValue::Boolean(true));
    let inputs = row_of([
        (TEXTURE_INPUT.to_string(), tex()),
        (VERTICAL_INPUT.to_string(), NodeValue::Boolean(false)),
    ]);
    let mut table = NodeValueTable::default();
    behavior.value(&core, &inputs, Rational::new(0, 1), &mut table);
    // The row's false for vertical wins over the node's true, so both
    // flags are off and the texture passes through unmirrored.
    match table.get(ValueType::Texture) {
        Some(NodeValue::Texture(h)) => assert!(h.is_null()),
        other => panic!("pass-through texture expected, got {other:?}"),
    }
}

#[test]
fn shader_code_returns_the_flip_shader() {
    let code = MirrorNode.shader_code("").unwrap();
    assert!(code.contains("uniform sampler2D tex_in;"));
    assert!(code.contains("uniform bool horiz_in;"));
    assert!(code.contains("uniform bool vert_in;"));
    assert!(code.contains("if (horiz_in) new_coord.x = 1.0 - new_coord.x;"));
    assert!(code.contains("if (vert_in) new_coord.y = 1.0 - new_coord.y;"));
    assert!(!code.contains("switch"));
}

#[test]
fn mirror_duplicate_clones() {
    let (core, behavior) = create();
    let dup = behavior.duplicate(&core).unwrap();
    assert_eq!(dup.name(), "Mirror");
}
