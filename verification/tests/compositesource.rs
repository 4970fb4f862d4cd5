//! Composite source.

use oak_node::handle;
use oak_node::input::flags as input_flags;
use oak_node::node::NodeBehavior;
use oak_node::node::flags as node_flags;
use oak_node::nodes::compositesource::{CompositeSource, TEXTURE_INPUT, TYPE_ID, create};
use oak_node::rational::Rational;
use oak_node::value::{NodeValue, NodeValueRow, NodeValueTable, ValueType};

/// A row with the given entries.
fn row_of<const N: usize>(entries: [(String, NodeValue); N]) -> NodeValueRow {
    let mut row = NodeValueRow::new();
    for (key, value) in entries {
        row.insert(key, value);
    }
    row
}

#[test]
fn compositesource_create_wires_inputs_and_flags() {
    let (core, behavior) = create();
    assert_eq!(behavior.type_id(), TYPE_ID);
    assert_eq!(behavior.name(), "Composite Source");
    let tex = core.get_input(TEXTURE_INPUT).expect("tex_in");
    assert_eq!(tex.value_type, ValueType::Texture);
    assert_eq!(tex.default, NodeValue::Empty);
    assert_eq!(tex.flags & input_flags::NOT_KEYFRAMABLE, input_flags::NOT_KEYFRAMABLE);
    assert_eq!(
        core.flags & node_flags::DONT_SHOW_IN_CREATE_MENU,
        node_flags::DONT_SHOW_IN_CREATE_MENU
    );
    assert_eq!(core.effect_input, TEXTURE_INPUT);
}

#[test]
fn compositesource_input_names() {
    let n = CompositeSource;
    assert_eq!(n.input_name(TEXTURE_INPUT), "Texture");
}

#[test]
fn value_pushes_row_texture() {
    let (core, behavior) = create();
    let texture = handle::Boxed::Texture(handle::Texture::Dummy);
    let inputs = row_of([(
        TEXTURE_INPUT.to_string(),
        NodeValue::Texture(handle::make_owned(texture)),
    )]);
    let mut table = NodeValueTable::default();
    behavior.value(&core, &inputs, Rational::new(0, 1), &mut table);
    assert!(matches!(
        table.get(ValueType::Texture),
        Some(NodeValue::Texture(_))
    ));
}

#[test]
fn value_without_texture_pushes_nothing() {
    let (core, behavior) = create();
    let mut table = NodeValueTable::default();
    behavior.value(
        &core,
        &NodeValueRow::new(),
        Rational::new(0, 1),
        &mut table,
    );
    assert!(table.get(ValueType::Texture).is_none());
}

#[test]
fn compositesource_duplicate_clones() {
    let (core, behavior) = create();
    let dup = behavior.duplicate(&core).unwrap();
    assert_eq!(dup.type_id(), TYPE_ID);
}
