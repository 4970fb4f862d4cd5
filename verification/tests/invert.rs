//! Invert effect.

use oak_node::handle;
use oak_node::node::{Category, NodeBehavior};
use oak_node::nodes::invert::{INVERT_A_INPUT, INVERT_B_INPUT, INVERT_G_INPUT, INVERT_R_INPUT, InvertNode, TEXTURE_INPUT, create};
use oak_node::rational::Rational;
use oak_node::value::{NodeValue, NodeValueRow, NodeValueTable, ValueType};

/// A row with the given entries.
fn row_of<const N: usize>(entries: [(String, NodeValue); N]) -> NodeValueRow {
    let mut row = NodeValueRow::new();
    for (key, value) in entries {
        row.insert(key, value);
    }
    row
}

#[test]
fn invert_input_names() {
    let n = InvertNode;
    assert_eq!(n.input_name(TEXTURE_INPUT), "Input");
    assert_eq!(n.input_name(INVERT_R_INPUT), "Invert Red");
    assert_eq!(n.input_name(INVERT_G_INPUT), "Invert Green");
    assert_eq!(n.input_name(INVERT_B_INPUT), "Invert Blue");
    assert_eq!(n.input_name(INVERT_A_INPUT), "Invert Alpha");
    assert_eq!(n.input_name("other_in"), "other_in");
}

#[test]
fn invert_create_wires_inputs_and_flags() {
    let (core, behavior) = create();
    assert_eq!(behavior.type_id(), "org.olivevideoeditor.Olive.invert");
    assert_eq!(behavior.name(), "Invert");
    assert_eq!(behavior.categories(), &[Category::Color]);
    let tex = core.get_input(TEXTURE_INPUT).unwrap();
    assert_ne!(tex.flags & oak_node::input::flags::NOT_KEYFRAMABLE, 0);
    // Every process* toggle is on by default.
    for id in [
        INVERT_R_INPUT,
        INVERT_G_INPUT,
        INVERT_B_INPUT,
        INVERT_A_INPUT,
    ] {
        assert_eq!(
            core.get_input(id).unwrap().default,
            NodeValue::Boolean(true),
            "{id} defaults to on"
        );
    }
    assert_eq!(core.effect_input, TEXTURE_INPUT);
    assert_ne!(core.flags & oak_node::node::flags::VIDEO_EFFECT, 0);
}

#[test]
fn invert_value_no_texture_pushes_nothing() {
    let (core, behavior) = create();
    let mut table = NodeValueTable::default();
    behavior.value(
        &core,
        &NodeValueRow::default(),
        Rational::new(0, 1),
        &mut table,
    );
    assert!(table.is_empty());
}

#[test]
fn invert_value_with_texture_pushes_shader_job_with_resolved_params() {
    let (core, behavior) = create();
    let inputs = row_of([(
        TEXTURE_INPUT.to_string(),
        NodeValue::Texture(handle::CHandle::null()),
    )]);
    let mut table = NodeValueTable::default();
    behavior.value(&core, &inputs, Rational::new(0, 1), &mut table);
    let Some(NodeValue::Texture(handle)) = table.get(ValueType::Texture) else {
        panic!("expected a texture-typed value");
    };
    let payload =
        handle::boxed_shader(handle)
            .expect("shader job pushed");
    assert_eq!(payload.type_id, "org.olivevideoeditor.Olive.invert");
    assert_eq!(payload.effect_input, TEXTURE_INPUT);
    for id in [
        INVERT_R_INPUT,
        INVERT_G_INPUT,
        INVERT_B_INPUT,
        INVERT_A_INPUT,
    ] {
        assert_eq!(payload.params.get(id), Some(&NodeValue::Boolean(true)));
    }
}

#[test]
fn invert_value_row_values_win_over_defaults() {
    let (mut core, behavior) = create();
    core.set_standard_value(INVERT_A_INPUT, -1, NodeValue::Boolean(true));
    let inputs = row_of([
        (
            TEXTURE_INPUT.to_string(),
            NodeValue::Texture(handle::CHandle::null()),
        ),
        (INVERT_A_INPUT.to_string(), NodeValue::Boolean(false)),
    ]);
    let mut table = NodeValueTable::default();
    behavior.value(&core, &inputs, Rational::new(0, 1), &mut table);
    let Some(NodeValue::Texture(handle)) = table.get(ValueType::Texture) else {
        panic!("expected a texture-typed value");
    };
    let payload =
        handle::boxed_shader(handle)
            .expect("shader job pushed");
    assert_eq!(
        payload.params.get(INVERT_A_INPUT),
        Some(&NodeValue::Boolean(false))
    );
}

#[test]
fn invert_shader_declares_uniforms_and_avoids_switch() {
    let code = InvertNode.shader_code("").unwrap();
    for uniform in [
        "tex_in",
        INVERT_R_INPUT,
        INVERT_G_INPUT,
        INVERT_B_INPUT,
        INVERT_A_INPUT,
    ] {
        assert!(code.contains(uniform), "uniform {uniform} declared");
    }
    assert!(code.contains("ove_texcoord"));
    assert!(code.contains("frag_color"));
    assert!(!code.contains("switch"), "naga rejects GLSL switch");
}

#[test]
fn invert_duplicate_clones() {
    let (core, behavior) = create();
    let dup = behavior.duplicate(&core).unwrap();
    assert_eq!(dup.name(), "Invert");
    assert_eq!(dup.type_id(), "org.olivevideoeditor.Olive.invert");
}
