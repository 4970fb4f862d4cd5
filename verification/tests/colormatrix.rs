//! Color matrix.

use oak_node::double::Double;
use oak_node::handle;
use oak_node::jobs;
use oak_node::node::{Category, NodeBehavior};
use oak_node::nodes::colormatrix::{ColorMatrixNode, MATRIX_INPUTS, MATRIX_UNIFORM, TEXTURE_INPUT, create};
use oak_node::rational::Rational;
use oak_node::value::{Color, NodeValue, NodeValueRow, NodeValueTable, ValueType};

/// A float value.
fn float(v: f64) -> NodeValue {
    NodeValue::Float(Double { bits: v.to_bits() })
}

/// A matrix value.
fn matrix(v: [f64; 16]) -> NodeValue {
    NodeValue::Matrix(v.map(|e| Double { bits: e.to_bits() }))
}

/// A row with the given entries.
fn row_of<const N: usize>(entries: [(String, NodeValue); N]) -> NodeValueRow {
    let mut row = NodeValueRow::new();
    for (key, value) in entries {
        row.insert(key, value);
    }
    row
}

fn tex() -> NodeValue {
    NodeValue::Texture(handle::CHandle::null())
}

#[test]
fn colormatrix_input_names() {
    let n = ColorMatrixNode;
    assert_eq!(n.input_name(TEXTURE_INPUT), "Input");
    assert_eq!(n.input_name("m0"), "R <- R");
    assert_eq!(n.input_name("m15"), "A <- A");
    assert_eq!(n.input_name("other"), "other");
}

#[test]
fn colormatrix_create_wires_inputs_and_flags() {
    let (core, behavior) = create();
    assert_eq!(behavior.type_id(), "org.olivevideoeditor.Olive.colormatrix");
    assert_eq!(behavior.categories(), &[Category::Color]);
    assert_eq!(core.effect_input, TEXTURE_INPUT);
    assert_ne!(core.flags & oak_node::node::flags::VIDEO_EFFECT, 0);
    assert_eq!(core.get_input(TEXTURE_INPUT).unwrap().value_type, ValueType::Texture);
    for (i, id) in MATRIX_INPUTS.iter().enumerate() {
        let input = core.get_input(id).expect("matrix input registered");
        assert_eq!(input.value_type, ValueType::Float);
        let expected = if i % 5 == 0 { 1.0 } else { 0.0 };
        assert_eq!(input.default, float(expected), "{id} default");
    }
}

#[test]
fn colormatrix_value_no_texture_pushes_nothing() {
    let (core, behavior) = create();
    let mut table = NodeValueTable::default();
    behavior.value(
        &core,
        &NodeValueRow::default(),
        Rational::new(0, 1),
        &mut table,
    );
    assert!(table.is_empty());
}

#[test]
fn value_pushes_identity_matrix_by_default() {
    let (core, behavior) = create();
    let inputs = row_of([(TEXTURE_INPUT.to_string(), tex())]);
    let mut table = NodeValueTable::default();
    behavior.value(&core, &inputs, Rational::new(0, 1), &mut table);
    let Some(NodeValue::Texture(h)) = table.get(ValueType::Texture) else {
        panic!("shader job expected");
    };
    let payload = jobs::shader_job(h)
        .expect("shader job payload boxed");
    let mut identity = [0.0f64; 16];
    for i in 0..4 {
        identity[i * 5] = 1.0;
    }
    assert_eq!(
        payload.params.get(MATRIX_UNIFORM),
        Some(&matrix(identity))
    );
    assert_eq!(payload.type_id, "org.olivevideoeditor.Olive.colormatrix");
    assert_eq!(payload.shader_id, "");
    assert_eq!(payload.effect_input, TEXTURE_INPUT);
    assert_eq!(payload.iterations, 1);
    assert!(payload.params.contains_key(TEXTURE_INPUT));
}

#[test]
fn value_packs_row_major_matrix_from_row() {
    let (core, behavior) = create();
    // Red -> green, green -> red, blue and alpha held.
    let swap = [0.0, 1.0, 0.0, 0.0, 1.0, 0.0, 0.0, 0.0, 0.0, 0.0, 1.0, 0.0, 0.0, 0.0, 0.0,
        1.0];
    let mut inputs = row_of([(TEXTURE_INPUT.to_string(), tex())]);
    for (i, id) in MATRIX_INPUTS.iter().enumerate() {
        inputs.insert(id.to_string(), float(swap[i]));
    }
    let mut table = NodeValueTable::default();
    behavior.value(&core, &inputs, Rational::new(0, 1), &mut table);
    let Some(NodeValue::Texture(h)) = table.get(ValueType::Texture) else {
        panic!("shader job expected");
    };
    let payload = jobs::shader_job(h)
        .expect("shader job payload boxed");
    assert_eq!(
        payload.params.get(MATRIX_UNIFORM),
        Some(&matrix(swap))
    );
}

#[test]
fn value_reads_matrix_from_core_when_absent_from_row() {
    let (mut core, behavior) = create();
    core.set_standard_value("m1", -1, float(0.25));
    let inputs = row_of([(TEXTURE_INPUT.to_string(), tex())]);
    let mut table = NodeValueTable::default();
    behavior.value(&core, &inputs, Rational::new(0, 1), &mut table);
    let Some(NodeValue::Texture(h)) = table.get(ValueType::Texture) else {
        panic!("shader job expected");
    };
    let payload = jobs::shader_job(h)
        .expect("shader job payload boxed");
    let Some(NodeValue::Matrix(m)) = payload.params.get(MATRIX_UNIFORM) else {
        panic!("matrix uniform expected");
    };
    assert_eq!(m[1], Double { bits: 0.25f64.to_bits() });
    assert_eq!(m[0], Double { bits: 1.0f64.to_bits() });
}

#[test]
fn shader_code_declares_matrix_uniform() {
    let n = ColorMatrixNode;
    let glsl = n.shader_code("").unwrap();
    assert!(glsl.contains("uniform mat4 matrix_in;"));
    assert!(glsl.contains("frag_color = matrix_in * texture(tex_in, ove_texcoord);"));
}

#[test]
fn colormatrix_duplicate_clones_behavior() {
    let (core, behavior) = create();
    let dup = behavior.duplicate(&core).unwrap();
    assert_eq!(dup.name(), "Color Matrix");
}
