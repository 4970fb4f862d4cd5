//! Graph endpoints.

use oak_node::handle;
use oak_node::input::flags as input_flags;
use oak_node::node::flags as node_flags;
use oak_node::node::{Category, NodeBehavior};
use oak_node::nodes::graphendpoints::{GRAPH_INPUT_FEED_INPUT, GRAPH_INPUT_TYPE_ID, GRAPH_OUTPUT_INPUT, GRAPH_OUTPUT_TYPE_ID, create_graph_input, create_graph_output};
use oak_node::nodes::register_all;
use oak_node::rational::Rational;
use oak_node::value::{NodeValue, NodeValueRow, NodeValueTable, ValueType};

/// A row with the given entries.
fn row_of<const N: usize>(entries: [(String, NodeValue); N]) -> NodeValueRow {
    let mut row = NodeValueRow::new();
    for (key, value) in entries {
        row.insert(key, value);
    }
    row
}

#[test]
fn names_and_type_ids() {
    let (_, input) = create_graph_input();
    assert_eq!(input.name(), "Graph Input");
    assert_eq!(input.type_id(), GRAPH_INPUT_TYPE_ID);
    assert_eq!(input.categories(), &[Category::Input]);
    let (_, output) = create_graph_output();
    assert_eq!(output.name(), "Graph Output");
    assert_eq!(output.type_id(), GRAPH_OUTPUT_TYPE_ID);
    assert_eq!(output.categories(), &[Category::Output]);
}

#[test]
fn create_sets_ports_and_hiding_flag() {
    let (core, _) = create_graph_input();
    let feed = core.get_input(GRAPH_INPUT_FEED_INPUT).expect("feed_in");
    assert_eq!(feed.value_type, ValueType::Texture);
    assert_eq!(feed.default, NodeValue::Empty);
    assert_eq!(feed.flags & input_flags::NOT_KEYFRAMABLE, input_flags::NOT_KEYFRAMABLE);
    assert!(feed.is_connectable(), "the data entrance accepts edges");
    assert!(core.get_input(oak_node::node::ENABLED_INPUT).is_some());
    assert_ne!(core.flags & node_flags::DONT_SHOW_IN_CREATE_MENU, 0);
    // Not an effect, not an item, no effect input.
    assert_eq!(core.flags & node_flags::VIDEO_EFFECT, 0);
    assert_eq!(core.flags & node_flags::AUDIO_EFFECT, 0);
    assert_eq!(core.flags & node_flags::IS_ITEM, 0);
    assert!(core.effect_input.is_empty());

    let (core, _) = create_graph_output();
    let tex = core.get_input(GRAPH_OUTPUT_INPUT).expect("tex_in");
    assert_eq!(tex.value_type, ValueType::Texture);
    assert_eq!(tex.default, NodeValue::Empty);
    assert!(tex.is_connectable());
    assert_ne!(core.flags & node_flags::DONT_SHOW_IN_CREATE_MENU, 0);
    assert_eq!(core.flags & node_flags::VIDEO_EFFECT, 0);
}

#[test]
fn duplicate_is_refused() {
    let (core, input) = create_graph_input();
    assert!(input.duplicate(&core).is_none());
    let (core, output) = create_graph_output();
    assert!(output.duplicate(&core).is_none());
}

#[test]
fn input_names_and_enabled_fallthrough() {
    let (_, input) = create_graph_input();
    assert_eq!(input.input_name(GRAPH_INPUT_FEED_INPUT), "Feed");
    // The raw id (not the default "Enabled") so no pack entry is
    // required for the structural input (the param view hides it).
    assert_eq!(input.input_name(oak_node::node::ENABLED_INPUT), "enabled_in");
    let (_, output) = create_graph_output();
    assert_eq!(output.input_name(GRAPH_OUTPUT_INPUT), "Texture");
    assert_eq!(output.input_name("other_in"), "other_in");
}

#[test]
fn factory_resolves_both_types() {
    let (core, behavior) = register_all()
        .create_any(GRAPH_INPUT_TYPE_ID)
        .expect("the factory registers the graph input endpoint");
    assert_eq!(
        core.flags & oak_node::node::flags::DONT_SHOW_IN_CREATE_MENU,
        oak_node::node::flags::DONT_SHOW_IN_CREATE_MENU
    );
    assert_eq!(behavior.type_id(), GRAPH_INPUT_TYPE_ID);
    let (core, behavior) = register_all()
        .create_any(GRAPH_OUTPUT_TYPE_ID)
        .expect("the factory registers the graph output endpoint");
    assert_eq!(
        core.flags & oak_node::node::flags::DONT_SHOW_IN_CREATE_MENU,
        oak_node::node::flags::DONT_SHOW_IN_CREATE_MENU
    );
    assert_eq!(behavior.type_id(), GRAPH_OUTPUT_TYPE_ID);
}

#[test]
fn graph_input_forwards_the_row() {
    let (core, behavior) = create_graph_input();
    let tex = NodeValue::Texture(handle::CHandle::null());
    let row = row_of([
        (oak_node::node::ENABLED_INPUT.to_string(), NodeValue::Boolean(true)),
        (GRAPH_INPUT_FEED_INPUT.to_string(), tex),
    ]);
    let mut table = NodeValueTable::default();
    behavior.value(&core, &row, Rational::new(0, 1), &mut table);
    assert_eq!(table.count(), 2);
    assert_eq!(table.get(ValueType::Boolean), Some(&NodeValue::Boolean(true)));
    assert!(matches!(table.get(ValueType::Texture), Some(NodeValue::Texture(_))));
}

#[test]
fn graph_input_skips_a_missing_or_none_row_value() {
    let (core, behavior) = create_graph_input();
    let mut table = NodeValueTable::default();
    behavior.value(
        &core,
        &NodeValueRow::default(),
        Rational::new(0, 1),
        &mut table,
    );
    assert!(table.is_empty(), "no row entries -> nothing forwarded");

    let row = row_of([(
        GRAPH_INPUT_FEED_INPUT.to_string(),
        NodeValue::Empty,
    )]);
    behavior.value(&core, &row, Rational::new(0, 1), &mut table);
    assert!(table.is_empty(), "a None value is not forwarded");
}

#[test]
fn graph_output_pushes_its_texture() {
    let (core, behavior) = create_graph_output();
    let tex = NodeValue::Texture(handle::CHandle::null());
    let row = row_of([(GRAPH_OUTPUT_INPUT.to_string(), tex)]);
    let mut table = NodeValueTable::default();
    behavior.value(&core, &row, Rational::new(0, 1), &mut table);
    let handle = match table.get(ValueType::Texture) {
        Some(NodeValue::Texture(h)) => h.clone(),
        other => panic!("texture expected, got {other:?}"),
    };
    assert!(handle.is_null());

    // Nothing incoming -> nothing pushed.
    let mut empty = NodeValueTable::default();
    behavior.value(
        &core,
        &NodeValueRow::default(),
        Rational::new(0, 1),
        &mut empty,
    );
    assert!(empty.is_empty());
}
