//! Unpremultiply.

use oak_node::handle;
use oak_node::jobs::ShaderJobPayload;
use oak_node::jobs;
use oak_node::node::{Category, NodeBehavior, NodeCore};
use oak_node::nodes::unpremult::{CHANNEL_INPUT, Channel, TEXTURE_INPUT, UnpremultiplyNode, create};
use oak_node::rational::Rational;
use oak_node::value::{NodeValue, NodeValueRow, NodeValueTable, ValueType};

/// A row with the given entries.
fn row_of<const N: usize>(entries: [(String, NodeValue); N]) -> NodeValueRow {
    let mut row = NodeValueRow::new();
    for (key, value) in entries {
        row.insert(key, value);
    }
    row
}

fn tex() -> NodeValue {
    NodeValue::Texture(handle::CHandle::null())
}

fn run(core: &NodeCore, inputs: &NodeValueRow) -> ShaderJobPayload {
    let behavior = UnpremultiplyNode;
    let mut table = NodeValueTable::default();
    behavior.value(core, inputs, Rational::new(0, 1), &mut table);
    let Some(NodeValue::Texture(h)) = table.get(ValueType::Texture) else {
        panic!("shader job expected");
    };
    jobs::shader_job(h)
        .expect("shader job payload boxed")
        .clone()
}

#[test]
fn unpremult_input_names() {
    let n = UnpremultiplyNode;
    assert_eq!(n.input_name(TEXTURE_INPUT), "Input");
    assert_eq!(n.input_name(CHANNEL_INPUT), "Channel");
    assert_eq!(n.input_name("other"), "other");
}

#[test]
fn combo_strings_match_channel_values() {
    let n = UnpremultiplyNode;
    let strings = n.input_combo_strings(CHANNEL_INPUT);
    assert_eq!(strings, vec!["None", "R", "G", "B", "A"]);
    assert_eq!(Channel::NoChannel.index(), 0);
    assert_eq!(Channel::Red.index(), 1);
    assert_eq!(Channel::Green.index(), 2);
    assert_eq!(Channel::Blue.index(), 3);
    assert_eq!(Channel::Alpha.index(), 4);
    assert!(n.input_combo_strings("other").is_empty());
}

#[test]
fn create_wires_inputs_flags_and_defaults() {
    let (core, behavior) = create();
    assert_eq!(behavior.type_id(), "org.olivevideoeditor.Olive.unpremult");
    assert_eq!(behavior.name(), "Unpremultiply");
    assert_eq!(behavior.categories(), &[Category::Math]);
    assert_ne!(core.flags & oak_node::node::flags::VIDEO_EFFECT, 0);
    assert_eq!(core.effect_input, TEXTURE_INPUT);

    let tex_input = core.get_input(TEXTURE_INPUT).expect("texture input");
    assert_eq!(tex_input.value_type, ValueType::Texture);
    assert_ne!(tex_input.flags & oak_node::input::flags::NOT_KEYFRAMABLE, 0);

    let channel = core.get_input(CHANNEL_INPUT).expect("channel input");
    assert_eq!(channel.value_type, ValueType::Combo);
    assert_eq!(channel.default, NodeValue::Combo(Channel::Alpha.index()));
    assert_ne!(channel.flags & oak_node::input::flags::NOT_CONNECTABLE, 0);
    assert_ne!(channel.flags & oak_node::input::flags::NOT_KEYFRAMABLE, 0);
}

#[test]
fn unpremult_value_no_texture_pushes_nothing() {
    let (core, behavior) = create();
    let mut table = NodeValueTable::default();
    behavior.value(
        &core,
        &NodeValueRow::default(),
        Rational::new(0, 1),
        &mut table,
    );
    assert!(table.is_empty());
}

#[test]
fn value_with_texture_defaults_channel_to_alpha() {
    let (core, _) = create();
    let inputs = row_of([(TEXTURE_INPUT.to_string(), tex())]);
    let payload = run(&core, &inputs);
    assert_eq!(payload.type_id, "org.olivevideoeditor.Olive.unpremult");
    assert_eq!(payload.shader_id, "");
    assert_eq!(payload.iterations, 1);
    assert_eq!(payload.iterative_input, "");
    assert_eq!(payload.effect_input, TEXTURE_INPUT);
    assert_eq!(
        payload.params.get(CHANNEL_INPUT),
        Some(&NodeValue::Combo(Channel::Alpha.index())),
        "the default channel rides in the job params"
    );
}

#[test]
fn value_takes_channel_from_row() {
    let (core, _) = create();
    let inputs = row_of([
        (TEXTURE_INPUT.to_string(), tex()),
        (
            CHANNEL_INPUT.to_string(),
            NodeValue::Combo(Channel::Red.index()),
        ),
    ]);
    let payload = run(&core, &inputs);
    assert_eq!(
        payload.params.get(CHANNEL_INPUT),
        Some(&NodeValue::Combo(Channel::Red.index()))
    );
}

#[test]
fn shader_code_declares_inputs_and_zero_guard() {
    let n = UnpremultiplyNode;
    let glsl = n.shader_code("").unwrap();
    assert!(glsl.contains("uniform sampler2D tex_in;"));
    assert!(glsl.contains("uniform int unpremult_channel_in;"));
    assert!(glsl.contains("if (factor <= 0.000001) {"));
    assert!(glsl.contains("frag_color = vec4(col.rgb / factor, col.a);"));
    assert!(!glsl.contains("switch"));
}

#[test]
fn unpremult_duplicate_clones_behavior() {
    let (core, behavior) = create();
    let dup = behavior.duplicate(&core).unwrap();
    assert_eq!(dup.name(), "Unpremultiply");
}
