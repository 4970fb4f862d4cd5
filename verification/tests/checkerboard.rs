//! Checkerboard generator.

use oak_node::double::Double;
use oak_node::handle;
use oak_node::node::NodeBehavior;
use oak_node::nodes::checkerboard::{COLOR1_INPUT, COLOR2_INPUT, CheckerBoardNode, SIZE_INPUT, create};
use oak_node::nodes::generatorwithmerge::BASE_INPUT;
use oak_node::rational::Rational;
use oak_node::value::{Color, NodeValue, NodeValueRow, NodeValueTable, ValueType, Vec2};

/// A point value.
fn vec2(v: [f64; 2]) -> NodeValue {
    NodeValue::Vec2(Vec2 { x: Double { bits: v[0].to_bits() }, y: Double { bits: v[1].to_bits() } })
}

/// A color value.
fn color(v: [f64; 4]) -> NodeValue {
    NodeValue::Color(Color {
        r: Double { bits: v[0].to_bits() },
        g: Double { bits: v[1].to_bits() },
        b: Double { bits: v[2].to_bits() },
        a: Double { bits: v[3].to_bits() },
    })
}

/// A row with the given entries.
fn row_of<const N: usize>(entries: [(String, NodeValue); N]) -> NodeValueRow {
    let mut row = NodeValueRow::new();
    for (key, value) in entries {
        row.insert(key, value);
    }
    row
}

#[test]
fn checkerboard_input_names() {
    let n = CheckerBoardNode;
    assert_eq!(n.input_name(SIZE_INPUT), "Box Size");
    assert_eq!(n.input_name(COLOR1_INPUT), "Color 1");
    assert_eq!(n.input_name(COLOR2_INPUT), "Color 2");
    assert_eq!(
        n.input_name(oak_node::nodes::generatorwithmerge::BASE_INPUT),
        "Base"
    );
}

#[test]
fn checkerboard_create_wires_inputs_and_flags() {
    let (core, behavior) = create();
    assert_eq!(behavior.type_id(), "org.olivevideoeditor.Olive.checkerboard");
    assert_eq!(
        core.get_input(SIZE_INPUT).unwrap().default,
        vec2([64.0, 64.0])
    );
    assert_eq!(
        core.get_input(COLOR1_INPUT).unwrap().default,
        color([0.1, 0.1, 0.1, 1.0])
    );
    assert_eq!(
        core.get_input(COLOR2_INPUT).unwrap().default,
        color([0.5, 0.5, 0.5, 1.0])
    );
    assert!(core.get_input(COLOR1_INPUT).unwrap().properties.iter().any(
        |(k, v)| k == "view" && *v == NodeValue::Text("color".into())
    ));
    assert_eq!(core.effect_input, BASE_INPUT);
    assert_ne!(core.flags & oak_node::node::flags::VIDEO_EFFECT, 0);
}

#[test]
fn checkerboard_value_pushes_generator_job() {
    let (core, behavior) = create();
    let mut table = NodeValueTable::default();
    behavior.value(
        &core,
        &NodeValueRow::default(),
        Rational::new(0, 1),
        &mut table,
    );
    let handle = match table.get(ValueType::Texture) {
        Some(NodeValue::Texture(h)) => h.clone(),
        _ => panic!("texture expected"),
    };
    let payload = handle::boxed_shader(&handle)
        .expect("shader job payload expected");
    assert_eq!(payload.type_id, "org.olivevideoeditor.Olive.checkerboard");
    assert_eq!(payload.shader_id, "checkerboard");
    assert_eq!(payload.iterations, 1);
    assert_eq!(payload.effect_input, BASE_INPUT);
    assert_eq!(payload.iterative_input, "");
    // The unconnected inputs resolve from the node defaults.
    assert_eq!(
        payload.params.get(SIZE_INPUT),
        Some(&vec2([64.0, 64.0]))
    );
    assert_eq!(
        payload.params.get(COLOR1_INPUT),
        Some(&color([0.1, 0.1, 0.1, 1.0]))
    );
    assert_eq!(
        payload.params.get(COLOR2_INPUT),
        Some(&color([0.5, 0.5, 0.5, 1.0]))
    );
}

#[test]
fn value_row_values_win_over_the_node_defaults() {
    let (core, behavior) = create();
    let inputs = row_of([
        (SIZE_INPUT.to_string(), vec2([4.0, 4.0])),
        (COLOR1_INPUT.to_string(), color([1.0, 0.0, 0.0, 1.0])),
    ]);
    let mut table = NodeValueTable::default();
    behavior.value(&core, &inputs, Rational::new(0, 1), &mut table);
    let handle = match table.get(ValueType::Texture) {
        Some(NodeValue::Texture(h)) => h.clone(),
        _ => panic!("texture expected"),
    };
    let payload = handle::boxed_shader(&handle)
        .expect("shader job payload expected");
    assert_eq!(
        payload.params.get(SIZE_INPUT),
        Some(&vec2([4.0, 4.0]))
    );
    assert_eq!(
        payload.params.get(COLOR1_INPUT),
        Some(&color([1.0, 0.0, 0.0, 1.0]))
    );
}

#[test]
fn checkerboard_value_with_base_merges_nested_job() {
    let (core, behavior) = create();
    let inputs = row_of([(
        BASE_INPUT.to_string(),
        NodeValue::Texture(handle::CHandle::null()),
    )]);
    let mut table = NodeValueTable::default();
    behavior.value(&core, &inputs, Rational::new(0, 1), &mut table);
    let handle = match table.get(ValueType::Texture) {
        Some(NodeValue::Texture(h)) => h.clone(),
        _ => panic!("texture expected"),
    };
    let merge = handle::boxed_shader(&handle)
        .expect("merge job payload expected");
    assert_eq!(merge.shader_id, "mrg");
    assert_eq!(merge.iterations, 1);
    assert_eq!(merge.effect_input, BASE_INPUT);
    assert!(merge.params.contains_key(BASE_INPUT));
    // The generator's own parameters travel with the nested job; the
    // merge payload carries only the base and the blend input.
    assert!(!merge.params.contains_key(COLOR1_INPUT));
    // The checkerboard job is nested as the merge's blend texture.
    match merge.params.get(oak_node::nodes::merge::BLEND_INPUT) {
        Some(NodeValue::Texture(blend)) => {
            let nested = handle::boxed_shader(blend)
                .expect("nested job payload boxed");
            assert_eq!(nested.shader_id, "checkerboard");
            assert_eq!(
                nested.params.get(COLOR1_INPUT),
                Some(&color([0.1, 0.1, 0.1, 1.0]))
            );
        }
        _ => panic!("nested blend job expected"),
    }
}

#[test]
fn checkerboard_shader_code_dispatches() {
    let n = CheckerBoardNode;
    let code = n.shader_code("checkerboard").unwrap();
    assert!(code.contains("uniform vec2 size_in;"));
    assert!(code.contains("uniform vec4 color1_in;"));
    assert!(code.contains("uniform vec4 color2_in;"));
    assert!(code.contains("uniform vec2 resolution_in;"));
    assert!(code.contains("float parity = s - 2.0 * floor(s * 0.5);"));
    assert!(!code.contains("switch"));
    assert!(n
        .shader_code("mrg")
        .unwrap()
        .contains("base_col *= 1.0 - blend_col.a;"));
    assert!(n.shader_code("other").is_none());
}

#[test]
fn checkerboard_duplicate_clones() {
    let (core, behavior) = create();
    let dup = behavior.duplicate(&core).unwrap();
    assert_eq!(dup.name(), "Checkerboard");
}
