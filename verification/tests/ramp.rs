//! Ramp generator.

use oak_node::double::Double;
use oak_node::handle;
use oak_node::jobs;
use oak_node::node::NodeBehavior;
use oak_node::nodes::generatorwithmerge::BASE_INPUT;
use oak_node::nodes::ramp::{COLOR0_INPUT, COLOR1_INPUT, POINT0_INPUT, POINT1_INPUT, RampNode, create};
use oak_node::rational::Rational;
use oak_node::value::{Color, NodeValue, NodeValueRow, NodeValueTable, ValueType, Vec2};

/// A point value.
fn vec2(v: [f64; 2]) -> NodeValue {
    NodeValue::Vec2(Vec2 { x: Double { bits: v[0].to_bits() }, y: Double { bits: v[1].to_bits() } })
}

/// A color value.
fn color(v: [f64; 4]) -> NodeValue {
    NodeValue::Color(Color {
        r: Double { bits: v[0].to_bits() },
        g: Double { bits: v[1].to_bits() },
        b: Double { bits: v[2].to_bits() },
        a: Double { bits: v[3].to_bits() },
    })
}

/// A row with the given entries.
fn row_of<const N: usize>(entries: [(String, NodeValue); N]) -> NodeValueRow {
    let mut row = NodeValueRow::new();
    for (key, value) in entries {
        row.insert(key, value);
    }
    row
}

#[test]
fn ramp_input_names() {
    let n = RampNode;
    assert_eq!(n.input_name(POINT0_INPUT), "Point 0");
    assert_eq!(n.input_name(POINT1_INPUT), "Point 1");
    assert_eq!(n.input_name(COLOR0_INPUT), "Color 0");
    assert_eq!(n.input_name(COLOR1_INPUT), "Color 1");
    assert_eq!(
        n.input_name(oak_node::nodes::generatorwithmerge::BASE_INPUT),
        "Base"
    );
}

#[test]
fn ramp_create_wires_inputs_and_flags() {
    let (core, behavior) = create();
    assert_eq!(behavior.type_id(), "org.olivevideoeditor.Olive.ramp");
    assert_eq!(
        core.get_input(POINT0_INPUT).unwrap().default,
        vec2([-100.0, 0.0])
    );
    assert_eq!(
        core.get_input(POINT1_INPUT).unwrap().default,
        vec2([100.0, 0.0])
    );
    assert_eq!(
        core.get_input(COLOR0_INPUT).unwrap().default,
        color([0.0, 0.0, 0.0, 1.0])
    );
    assert_eq!(
        core.get_input(COLOR1_INPUT).unwrap().default,
        color([1.0, 1.0, 1.0, 1.0])
    );
    assert!(core.get_input(COLOR1_INPUT).unwrap().properties.iter().any(
        |(k, v)| k == "view" && *v == NodeValue::Text("color".into())
    ));
    assert_eq!(core.effect_input, BASE_INPUT);
    assert_ne!(core.flags & oak_node::node::flags::VIDEO_EFFECT, 0);
}

#[test]
fn ramp_value_pushes_generator_job() {
    let (core, behavior) = create();
    let mut table = NodeValueTable::default();
    behavior.value(
        &core,
        &NodeValueRow::default(),
        Rational::new(0, 1),
        &mut table,
    );
    let handle = match table.get(ValueType::Texture) {
        Some(NodeValue::Texture(h)) => h.clone(),
        _ => panic!("texture expected"),
    };
    let payload = jobs::shader_job(&handle)
        .expect("shader job payload expected");
    assert_eq!(payload.type_id, "org.olivevideoeditor.Olive.ramp");
    assert_eq!(payload.shader_id, "ramp");
    assert_eq!(payload.iterations, 1);
    assert_eq!(payload.effect_input, BASE_INPUT);
    assert_eq!(payload.iterative_input, "");
    assert_eq!(
        payload.params.get(POINT0_INPUT),
        Some(&vec2([-100.0, 0.0]))
    );
    assert_eq!(
        payload.params.get(COLOR1_INPUT),
        Some(&color([1.0, 1.0, 1.0, 1.0]))
    );
}

#[test]
fn value_row_points_win_over_the_node_defaults() {
    let (core, behavior) = create();
    let inputs = row_of([
        (POINT0_INPUT.to_string(), vec2([-4.0, 0.0])),
        (POINT1_INPUT.to_string(), vec2([4.0, 0.0])),
        (COLOR0_INPUT.to_string(), color([1.0, 0.0, 0.0, 1.0])),
    ]);
    let mut table = NodeValueTable::default();
    behavior.value(&core, &inputs, Rational::new(0, 1), &mut table);
    let handle = match table.get(ValueType::Texture) {
        Some(NodeValue::Texture(h)) => h.clone(),
        _ => panic!("texture expected"),
    };
    let payload = jobs::shader_job(&handle)
        .expect("shader job payload expected");
    assert_eq!(
        payload.params.get(POINT0_INPUT),
        Some(&vec2([-4.0, 0.0]))
    );
    assert_eq!(
        payload.params.get(COLOR0_INPUT),
        Some(&color([1.0, 0.0, 0.0, 1.0]))
    );
    // The unset color falls back to the node default.
    assert_eq!(
        payload.params.get(COLOR1_INPUT),
        Some(&color([1.0, 1.0, 1.0, 1.0]))
    );
}

#[test]
fn ramp_value_with_base_merges_nested_job() {
    let (core, behavior) = create();
    let inputs = row_of([(
        BASE_INPUT.to_string(),
        NodeValue::Texture(handle::CHandle::null()),
    )]);
    let mut table = NodeValueTable::default();
    behavior.value(&core, &inputs, Rational::new(0, 1), &mut table);
    let handle = match table.get(ValueType::Texture) {
        Some(NodeValue::Texture(h)) => h.clone(),
        _ => panic!("texture expected"),
    };
    let merge = jobs::shader_job(&handle)
        .expect("merge job payload expected");
    assert_eq!(merge.shader_id, "mrg");
    assert_eq!(merge.effect_input, BASE_INPUT);
    match merge.params.get(oak_node::nodes::merge::BLEND_INPUT) {
        Some(NodeValue::Texture(blend)) => {
            let nested = jobs::shader_job(blend)
                .expect("nested job payload boxed");
            assert_eq!(nested.shader_id, "ramp");
        }
        _ => panic!("nested blend job expected"),
    }
}

#[test]
fn ramp_shader_code_dispatches() {
    let n = RampNode;
    let code = n.shader_code("ramp").unwrap();
    assert!(code.contains("uniform vec2 point0_in;"));
    assert!(code.contains("uniform vec2 point1_in;"));
    assert!(code.contains("uniform vec4 color0_in;"));
    assert!(code.contains("uniform vec4 color1_in;"));
    assert!(code.contains("uniform vec2 resolution_in;"));
    assert!(code.contains("t = dot(px - point0_in, d) / norm2;"));
    assert!(!code.contains("switch"));
    assert!(n
        .shader_code("mrg")
        .unwrap()
        .contains("base_col *= 1.0 - blend_col.a;"));
    assert!(n.shader_code("other").is_none());
}

#[test]
fn ramp_duplicate_clones() {
    let (core, behavior) = create();
    let dup = behavior.duplicate(&core).unwrap();
    assert_eq!(dup.name(), "Ramp");
}
