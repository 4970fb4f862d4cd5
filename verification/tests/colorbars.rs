//! Color bars generator.

use oak_node::handle;
use oak_node::jobs;
use oak_node::node::NodeBehavior;
use oak_node::nodes::colorbars::{ColorBarsNode, STANDARD_INPUT, create};
use oak_node::nodes::generatorwithmerge::BASE_INPUT;
use oak_node::rational::Rational;
use oak_node::value::{Color, NodeValue, NodeValueRow, NodeValueTable, ValueType};

/// A row with the given entries.
fn row_of<const N: usize>(entries: [(String, NodeValue); N]) -> NodeValueRow {
    let mut row = NodeValueRow::new();
    for (key, value) in entries {
        row.insert(key, value);
    }
    row
}

#[test]
fn input_names_and_combo_strings() {
    let n = ColorBarsNode;
    assert_eq!(n.input_name(STANDARD_INPUT), "Standard");
    assert_eq!(
        n.input_name(oak_node::nodes::generatorwithmerge::BASE_INPUT),
        "Base"
    );
    assert_eq!(n.input_combo_strings(STANDARD_INPUT), vec!["SMPTE 75%", "Full 100%"]);
    assert!(n.input_combo_strings("other_in").is_empty());
}

#[test]
fn colorbars_create_wires_inputs_and_flags() {
    let (core, behavior) = create();
    assert_eq!(behavior.type_id(), "org.olivevideoeditor.Olive.colorbars");
    assert_eq!(
        core.get_input(STANDARD_INPUT).unwrap().default,
        NodeValue::Combo(0)
    );
    assert_eq!(behavior.input_combo_strings(STANDARD_INPUT).len(), 2);
    assert_eq!(core.effect_input, BASE_INPUT);
    assert_ne!(core.flags & oak_node::node::flags::VIDEO_EFFECT, 0);
}

#[test]
fn colorbars_value_pushes_generator_job() {
    let (core, behavior) = create();
    let mut table = NodeValueTable::default();
    behavior.value(
        &core,
        &NodeValueRow::default(),
        Rational::new(0, 1),
        &mut table,
    );
    let handle = match table.get(ValueType::Texture) {
        Some(NodeValue::Texture(h)) => h.clone(),
        _ => panic!("texture expected"),
    };
    let payload = jobs::shader_job(&handle)
        .expect("shader job payload expected");
    assert_eq!(payload.type_id, "org.olivevideoeditor.Olive.colorbars");
    assert_eq!(payload.shader_id, "colorbars");
    assert_eq!(payload.iterations, 1);
    assert_eq!(payload.effect_input, BASE_INPUT);
    assert_eq!(payload.iterative_input, "");
    assert_eq!(
        payload.params.get(STANDARD_INPUT),
        Some(&NodeValue::Combo(0))
    );
}

#[test]
fn value_row_standard_wins_over_the_node_default() {
    let (core, behavior) = create();
    let inputs = row_of([(STANDARD_INPUT.to_string(), NodeValue::Combo(1))]);
    let mut table = NodeValueTable::default();
    behavior.value(&core, &inputs, Rational::new(0, 1), &mut table);
    let handle = match table.get(ValueType::Texture) {
        Some(NodeValue::Texture(h)) => h.clone(),
        _ => panic!("texture expected"),
    };
    let payload = jobs::shader_job(&handle)
        .expect("shader job payload expected");
    assert_eq!(
        payload.params.get(STANDARD_INPUT),
        Some(&NodeValue::Combo(1))
    );
}

#[test]
fn colorbars_value_with_base_merges_nested_job() {
    let (core, behavior) = create();
    let inputs = row_of([(
        BASE_INPUT.to_string(),
        NodeValue::Texture(handle::CHandle::null()),
    )]);
    let mut table = NodeValueTable::default();
    behavior.value(&core, &inputs, Rational::new(0, 1), &mut table);
    let handle = match table.get(ValueType::Texture) {
        Some(NodeValue::Texture(h)) => h.clone(),
        _ => panic!("texture expected"),
    };
    let merge = jobs::shader_job(&handle)
        .expect("merge job payload expected");
    assert_eq!(merge.shader_id, "mrg");
    assert_eq!(merge.effect_input, BASE_INPUT);
    match merge.params.get(oak_node::nodes::merge::BLEND_INPUT) {
        Some(NodeValue::Texture(blend)) => {
            let nested = jobs::shader_job(blend)
                .expect("nested job payload boxed");
            assert_eq!(nested.shader_id, "colorbars");
        }
        _ => panic!("nested blend job expected"),
    }
}

#[test]
fn colorbars_shader_code_dispatches() {
    let n = ColorBarsNode;
    let code = n.shader_code("colorbars").unwrap();
    assert!(code.contains("uniform int standard_in;"));
    assert!(code.contains("uniform vec2 resolution_in;"));
    assert!(code.contains("float level = 0.75;"));
    assert!(!code.contains("switch"));
    assert!(n
        .shader_code("mrg")
        .unwrap()
        .contains("base_col *= 1.0 - blend_col.a;"));
    assert!(n.shader_code("other").is_none());
}

#[test]
fn colorbars_duplicate_clones() {
    let (core, behavior) = create();
    let dup = behavior.duplicate(&core).unwrap();
    assert_eq!(dup.name(), "Color Bars");
}
