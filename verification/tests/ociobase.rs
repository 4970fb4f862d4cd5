//! Color conversion base.

use oak_node::handle;
use oak_node::jobs::ColorProcessor;
use oak_node::jobs;
use oak_node::node::{NodeBehavior, NodeCore};
use oak_node::nodes::ociobase::{OcioBase, TEXTURE_INPUT};
use oak_node::rational::Rational;
use oak_node::value::{NodeValue, NodeValueRow, NodeValueTable, ValueType};

/// A row with the given entries.
fn row_of<const N: usize>(entries: [(String, NodeValue); N]) -> NodeValueRow {
    let mut row = NodeValueRow::new();
    for (key, value) in entries {
        row.insert(key, value);
    }
    row
}

/// A conversion that changes nothing.
fn pass_through() -> ColorProcessor {
    ColorProcessor { source: String::new(), destination: String::new() }
}


#[test]
fn processor_state_transitions() {
    let mut base = OcioBase::new();
    assert!(base.processor().is_none());
    base.set_processor(Some(std::sync::Arc::new(
        pass_through(),
    )));
    assert!(base.processor().is_some());
    base.set_processor(None);
    assert!(base.processor().is_none());
}

#[test]
fn ociobase_value_no_texture_pushes_nothing() {
    let base = OcioBase::new();
    let mut table = NodeValueTable::default();
    base.value(
        &NodeCore::new(),
        &NodeValueRow::default(),
        Rational::new(0, 1),
        &mut table,
    );
    assert!(table.is_empty());
}

#[test]
fn value_passes_through_without_processor() {
    let base = OcioBase::new();
    let mut table = NodeValueTable::default();
    let tex = NodeValue::Texture(handle::CHandle::null());
    let inputs = row_of([(TEXTURE_INPUT.to_string(), tex.clone())]);
    base.value(
        &NodeCore::new(),
        &inputs,
        Rational::new(0, 1),
        &mut table,
    );
    // Pass-through keeps the input texture value.
    assert_eq!(table.get(ValueType::Texture), Some(&tex));
}

#[test]
fn value_pushes_color_transform_job_with_processor() {
    let mut base = OcioBase::new();
    base.set_processor(Some(std::sync::Arc::new(
        pass_through(),
    )));
    let mut table = NodeValueTable::default();
    let tex = NodeValue::Texture(handle::make_owned(handle::Boxed::Opaque(1)));
    let inputs = row_of([(TEXTURE_INPUT.to_string(), tex.clone())]);
    base.value(
        &NodeCore::new(),
        &inputs,
        Rational::new(0, 1),
        &mut table,
    );
    // The ready case pushes the boxed ColorTransformJobPayload.
    let Some(NodeValue::Texture(handle)) = table.get(ValueType::Texture) else {
        panic!("job row expected");
    };
    let payload = jobs::color_transform_job(handle)
    .expect("a boxed ColorTransformJobPayload");
    assert!(std::sync::Arc::ptr_eq(
        &payload.color_processor,
        &base.processor().unwrap()
    ));
    assert_eq!(payload.input, tex);
    assert_eq!(payload.time, Rational::new(0, 1));
}

#[test]
fn graph_hooks_are_noops() {
    let mut base = OcioBase::new();
    let mut core = NodeCore::new();
    base.added_to_graph(&mut core);
    base.removed_from_graph(&mut core);
    assert!(base.processor().is_none());
}
