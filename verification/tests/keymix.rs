//! Mask mix.

use oak_node::handle;
use oak_node::jobs::ShaderJobPayload;
use oak_node::node::{Category, NodeBehavior, NodeCore};
use oak_node::nodes::keymix::{BLEND_INPUT, KeyMixNode, MASK_INPUT, TEXTURE_INPUT, create};
use oak_node::rational::Rational;
use oak_node::value::{NodeValue, NodeValueRow, NodeValueTable, ValueType};

/// A row with the given entries.
fn row_of<const N: usize>(entries: [(String, NodeValue); N]) -> NodeValueRow {
    let mut row = NodeValueRow::new();
    for (key, value) in entries {
        row.insert(key, value);
    }
    row
}

fn tex() -> NodeValue {
    NodeValue::Texture(handle::CHandle::null())
}

fn run(core: &NodeCore, inputs: &NodeValueRow) -> ShaderJobPayload {
    let behavior = KeyMixNode;
    let mut table = NodeValueTable::default();
    behavior.value(core, inputs, Rational::new(0, 1), &mut table);
    let Some(NodeValue::Texture(h)) = table.get(ValueType::Texture) else {
        panic!("shader job expected");
    };
    handle::boxed_shader(h)
        .expect("shader job payload boxed")
        .clone()
}

#[test]
fn keymix_input_names() {
    let n = KeyMixNode;
    assert_eq!(n.input_name(TEXTURE_INPUT), "Input");
    assert_eq!(n.input_name(BLEND_INPUT), "Blend");
    assert_eq!(n.input_name(MASK_INPUT), "Mask");
    assert_eq!(n.input_name("other"), "other");
}

#[test]
fn keymix_create_wires_inputs_and_flags() {
    let (core, behavior) = create();
    assert_eq!(behavior.type_id(), "org.olivevideoeditor.Olive.keymix");
    assert_eq!(behavior.name(), "KeyMix");
    assert_eq!(behavior.categories(), &[Category::Math]);
    assert_ne!(core.flags & oak_node::node::flags::VIDEO_EFFECT, 0);
    assert_eq!(core.effect_input, "");

    for id in [TEXTURE_INPUT, BLEND_INPUT, MASK_INPUT] {
        let input = core.get_input(id).expect("texture input");
        assert_eq!(input.value_type, ValueType::Texture);
        assert_ne!(input.flags & oak_node::input::flags::NOT_KEYFRAMABLE, 0);
    }
}

#[test]
fn keymix_value_no_texture_pushes_nothing() {
    let (core, behavior) = create();
    let mut table = NodeValueTable::default();
    behavior.value(
        &core,
        &NodeValueRow::default(),
        Rational::new(0, 1),
        &mut table,
    );
    assert!(table.is_empty());
}

#[test]
fn keymix_value_tex_only_pushes_tex() {
    let (core, behavior) = create();
    let input = tex();
    let inputs = row_of([(TEXTURE_INPUT.to_string(), input.clone())]);
    let mut table = NodeValueTable::default();
    behavior.value(&core, &inputs, Rational::new(0, 1), &mut table);
    assert_eq!(table.get(ValueType::Texture), Some(&input));
}

#[test]
fn keymix_value_blend_only_pushes_blend() {
    let (core, behavior) = create();
    let blend = tex();
    let inputs = row_of([(BLEND_INPUT.to_string(), blend.clone())]);
    let mut table = NodeValueTable::default();
    behavior.value(&core, &inputs, Rational::new(0, 1), &mut table);
    assert_eq!(table.get(ValueType::Texture), Some(&blend));
}

#[test]
fn value_mask_only_pushes_nothing() {
    let (core, behavior) = create();
    let inputs = row_of([(MASK_INPUT.to_string(), tex())]);
    let mut table = NodeValueTable::default();
    behavior.value(&core, &inputs, Rational::new(0, 1), &mut table);
    assert!(table.is_empty());
}

#[test]
fn value_both_pushes_job_payload_with_mask() {
    let (core, _) = create();
    let inputs = row_of([
        (TEXTURE_INPUT.to_string(), tex()),
        (BLEND_INPUT.to_string(), tex()),
        (MASK_INPUT.to_string(), tex()),
    ]);
    let payload = run(&core, &inputs);
    assert_eq!(payload.type_id, "org.olivevideoeditor.Olive.keymix");
    assert_eq!(payload.shader_id, "");
    assert_eq!(payload.iterations, 1);
    assert_eq!(payload.iterative_input, "");
    assert!(payload.params.contains_key(TEXTURE_INPUT));
    assert!(payload.params.contains_key(BLEND_INPUT));
    assert!(payload.params.contains_key(MASK_INPUT));
}

#[test]
fn value_both_without_mask_still_pushes_job() {
    let (core, _) = create();
    let inputs = row_of([
        (TEXTURE_INPUT.to_string(), tex()),
        (BLEND_INPUT.to_string(), tex()),
    ]);
    let payload = run(&core, &inputs);
    assert!(!payload.params.contains_key(MASK_INPUT));
}

#[test]
fn keymix_shader_code_declares_inputs_without_switch() {
    let n = KeyMixNode;
    let glsl = n.shader_code("").unwrap();
    assert!(glsl.contains("uniform sampler2D tex_in;"));
    assert!(glsl.contains("uniform sampler2D blend_in;"));
    assert!(glsl.contains("uniform sampler2D mask_in;"));
    assert!(glsl.contains("uniform bool mask_in_enabled;"));
    assert!(glsl.contains("mask_col = vec4(1.0);"));
    assert!(glsl.contains("frag_color = mask_col.a > 0.0 ? blend_col : tex_col;"));
    assert!(!glsl.contains("switch"));
}

#[test]
fn keymix_duplicate_clones_behavior() {
    let (core, behavior) = create();
    let dup = behavior.duplicate(&core).unwrap();
    assert_eq!(dup.name(), "KeyMix");
}
