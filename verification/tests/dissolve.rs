//! Dissolve.

use oak_node::double::Double;
use oak_node::handle;
use oak_node::jobs::ShaderJobPayload;
use oak_node::jobs;
use oak_node::node::{Category, NodeBehavior, NodeCore};
use oak_node::nodes::dissolve::{BLEND_INPUT, DissolveNode, MIX_INPUT, TEXTURE_INPUT, create};
use oak_node::rational::Rational;
use oak_node::value::{NodeValue, NodeValueRow, NodeValueTable, ValueType};

/// A float value.
fn float(v: f64) -> NodeValue {
    NodeValue::Float(Double { bits: v.to_bits() })
}

/// A row with the given entries.
fn row_of<const N: usize>(entries: [(String, NodeValue); N]) -> NodeValueRow {
    let mut row = NodeValueRow::new();
    for (key, value) in entries {
        row.insert(key, value);
    }
    row
}

fn tex() -> NodeValue {
    NodeValue::Texture(handle::CHandle::null())
}

fn run(core: &NodeCore, inputs: &NodeValueRow) -> ShaderJobPayload {
    let behavior = DissolveNode;
    let mut table = NodeValueTable::default();
    behavior.value(core, inputs, Rational::new(0, 1), &mut table);
    let Some(NodeValue::Texture(h)) = table.get(ValueType::Texture) else {
        panic!("shader job expected");
    };
    jobs::shader_job(h)
        .expect("shader job payload boxed")
        .clone()
}

#[test]
fn dissolve_input_names() {
    let n = DissolveNode;
    assert_eq!(n.input_name(TEXTURE_INPUT), "Input");
    assert_eq!(n.input_name(BLEND_INPUT), "Blend");
    assert_eq!(n.input_name(MIX_INPUT), "Mix");
    assert_eq!(n.input_name("other"), "other");
}

#[test]
fn dissolve_create_wires_inputs_and_flags() {
    let (core, behavior) = create();
    assert_eq!(behavior.type_id(), "org.olivevideoeditor.Olive.dissolve");
    assert_eq!(behavior.name(), "Dissolve");
    assert_eq!(behavior.categories(), &[Category::Math]);
    assert_ne!(core.flags & oak_node::node::flags::VIDEO_EFFECT, 0);
    assert_eq!(core.effect_input, "");

    for id in [TEXTURE_INPUT, BLEND_INPUT] {
        let input = core.get_input(id).expect("texture input");
        assert_ne!(input.flags & oak_node::input::flags::NOT_KEYFRAMABLE, 0);
    }

    let mix = core.get_input(MIX_INPUT).expect("mix input");
    assert_eq!(mix.default, float(0.5));
    assert!(mix
        .properties
        .iter()
        .any(|(k, v)| k == "min" && *v == float(0.0)));
    assert!(mix
        .properties
        .iter()
        .any(|(k, v)| k == "max" && *v == float(1.0)));
    assert!(mix
        .properties
        .iter()
        .any(|(k, v)| k == "view" && *v == NodeValue::Text("percentage".into())));
}

#[test]
fn dissolve_value_no_texture_pushes_nothing() {
    let (core, behavior) = create();
    let mut table = NodeValueTable::default();
    behavior.value(
        &core,
        &NodeValueRow::default(),
        Rational::new(0, 1),
        &mut table,
    );
    assert!(table.is_empty());
}

#[test]
fn dissolve_value_tex_only_pushes_tex() {
    let (core, behavior) = create();
    let input = tex();
    let inputs = row_of([(TEXTURE_INPUT.to_string(), input.clone())]);
    let mut table = NodeValueTable::default();
    behavior.value(&core, &inputs, Rational::new(0, 1), &mut table);
    assert_eq!(table.get(ValueType::Texture), Some(&input));
}

#[test]
fn dissolve_value_blend_only_pushes_blend() {
    let (core, behavior) = create();
    let blend = tex();
    let inputs = row_of([(BLEND_INPUT.to_string(), blend.clone())]);
    let mut table = NodeValueTable::default();
    behavior.value(&core, &inputs, Rational::new(0, 1), &mut table);
    assert_eq!(table.get(ValueType::Texture), Some(&blend));
}

#[test]
fn dissolve_value_both_pushes_job_payload_with_both_textures() {
    let (core, _) = create();
    let inputs = row_of([
        (TEXTURE_INPUT.to_string(), tex()),
        (BLEND_INPUT.to_string(), tex()),
    ]);
    let payload = run(&core, &inputs);
    assert_eq!(payload.type_id, "org.olivevideoeditor.Olive.dissolve");
    assert_eq!(payload.shader_id, "");
    assert_eq!(payload.iterations, 1);
    assert_eq!(payload.iterative_input, "");
    assert!(payload.params.contains_key(TEXTURE_INPUT));
    assert!(payload.params.contains_key(BLEND_INPUT));
    assert_eq!(
        payload.params.get(MIX_INPUT),
        Some(&float(0.5)),
        "the mix factor rides in the job params"
    );
}

#[test]
fn value_takes_mix_from_row() {
    let (core, _) = create();
    let inputs = row_of([
        (TEXTURE_INPUT.to_string(), tex()),
        (BLEND_INPUT.to_string(), tex()),
        (MIX_INPUT.to_string(), float(1.0)),
    ]);
    let payload = run(&core, &inputs);
    assert_eq!(payload.params.get(MIX_INPUT), Some(&float(1.0)));
}

#[test]
fn value_takes_mix_from_core() {
    let (mut core, _) = create();
    core.set_standard_value(MIX_INPUT, -1, float(0.25));
    let inputs = row_of([
        (TEXTURE_INPUT.to_string(), tex()),
        (BLEND_INPUT.to_string(), tex()),
    ]);
    let payload = run(&core, &inputs);
    assert_eq!(payload.params.get(MIX_INPUT), Some(&float(0.25)));
}

#[test]
fn dissolve_shader_code_declares_inputs_without_switch() {
    let n = DissolveNode;
    let glsl = n.shader_code("").unwrap();
    assert!(glsl.contains("uniform sampler2D tex_in;"));
    assert!(glsl.contains("uniform sampler2D blend_in;"));
    assert!(glsl.contains("uniform bool tex_in_enabled;"));
    assert!(glsl.contains("uniform bool blend_in_enabled;"));
    assert!(glsl.contains("uniform float mix_in;"));
    assert!(glsl.contains("frag_color = mix(tex_col, blend_col, mix_in);"));
    assert!(!glsl.contains("switch"));
}

#[test]
fn dissolve_duplicate_clones_behavior() {
    let (core, behavior) = create();
    let dup = behavior.duplicate(&core).unwrap();
    assert_eq!(dup.name(), "Dissolve");
}
