//! Layer transitions.

use oak_node::double::Double;
use oak_node::handle;
use oak_node::jobs::ShaderJobPayload;
use oak_node::node::{BoxedTrack, SingleKey};
use oak_node::node::{Category, NodeBehavior, NodeCore};
use oak_node::nodes::transitionfx::{BLEND_INPUT, COLOR_INPUT, DIRECTION_INPUT, DIRECTION_NAMES, PROGRESS_INPUT, SHADER_IDS, TEXTURE_INPUT, TYPE_INPUT, TYPE_NAMES, TransitionFxNode, create, shader_id_for};
use oak_node::rational::Rational;
use oak_node::value::{Color, NodeValue, NodeValueRow, NodeValueTable, ValueType};

/// A float value.
fn float(v: f64) -> NodeValue {
    NodeValue::Float(Double { bits: v.to_bits() })
}

/// A color value.
fn color(v: [f64; 4]) -> NodeValue {
    NodeValue::Color(Color {
        r: Double { bits: v[0].to_bits() },
        g: Double { bits: v[1].to_bits() },
        b: Double { bits: v[2].to_bits() },
        a: Double { bits: v[3].to_bits() },
    })
}

/// A row with the given entries.
fn row_of<const N: usize>(entries: [(String, NodeValue); N]) -> NodeValueRow {
    let mut row = NodeValueRow::new();
    for (key, value) in entries {
        row.insert(key, value);
    }
    row
}

fn tex() -> NodeValue {
    NodeValue::Texture(handle::CHandle::null())
}

fn run(core: &NodeCore, inputs: &NodeValueRow) -> ShaderJobPayload {
    let behavior = TransitionFxNode;
    let mut table = NodeValueTable::default();
    behavior.value(core, inputs, Rational::new(0, 1), &mut table);
    let Some(NodeValue::Texture(h)) = table.get(ValueType::Texture) else {
        panic!("shader job expected");
    };
    handle::boxed_shader(h)
        .expect("shader job payload boxed")
        .clone()
}

/// The row the graph traverser builds for an unconnected node with
/// both textures: every input is present, `progress_in` carrying the
/// input default.
fn both() -> NodeValueRow {
    row_of([
        (TEXTURE_INPUT.to_string(), tex()),
        (BLEND_INPUT.to_string(), tex()),
        (PROGRESS_INPUT.to_string(), float(0.0)),
        (COLOR_INPUT.to_string(), color([0.0, 0.0, 0.0, 1.0])),
        (DIRECTION_INPUT.to_string(), NodeValue::Combo(0)),
    ])
}

#[test]
fn transitionfx_input_names() {
    let n = TransitionFxNode;
    assert_eq!(n.input_name(TEXTURE_INPUT), "From");
    assert_eq!(n.input_name(BLEND_INPUT), "To");
    assert_eq!(n.input_name(PROGRESS_INPUT), "Progress");
    assert_eq!(n.input_name(COLOR_INPUT), "Color");
    assert_eq!(n.input_name(DIRECTION_INPUT), "Direction");
    assert_eq!(n.input_name(TYPE_INPUT), "Type");
    assert_eq!(n.input_name("other"), "other");
}

#[test]
fn transitionfx_create_wires_inputs_and_flags() {
    let (core, behavior) = create();
    assert_eq!(
        behavior.type_id(),
        "org.olivevideoeditor.Olive.transitionfx"
    );
    assert_eq!(behavior.name(), "Transition FX");
    assert_eq!(behavior.categories(), &[Category::Effect]);
    assert_ne!(core.flags & oak_node::node::flags::VIDEO_EFFECT, 0);
    assert_eq!(core.effect_input, TEXTURE_INPUT, "the chain hangs off tex_in");
    assert_eq!(
        core.get_input(TEXTURE_INPUT).map(|i| i.value_type),
        Some(ValueType::Texture)
    );

    for id in [TEXTURE_INPUT, BLEND_INPUT] {
        let input = core.get_input(id).expect("texture input");
        assert_ne!(input.flags & oak_node::input::flags::NOT_KEYFRAMABLE, 0);
    }

    let progress = core.get_input(PROGRESS_INPUT).expect("progress input");
    assert_eq!(progress.default, float(0.0));
    assert!(progress
        .properties
        .iter()
        .any(|(k, v)| k == "min" && *v == float(0.0)));
    assert!(progress
        .properties
        .iter()
        .any(|(k, v)| k == "max" && *v == float(1.0)));

    let tint = core.get_input(COLOR_INPUT).expect("color input");
    assert_eq!(tint.default, color([0.0, 0.0, 0.0, 1.0]));

    let direction = core.get_input(DIRECTION_INPUT).expect("direction input");
    assert_eq!(direction.default, NodeValue::Combo(0));
    assert_ne!(direction.flags & oak_node::input::flags::NOT_CONNECTABLE, 0);
    assert_eq!(
        direction.properties.first(),
        Some(&(
            "combobox_strings".to_string(),
            NodeValue::Binary(DIRECTION_NAMES.join(",").into_bytes())
        ))
    );

    let ty = core.get_input(TYPE_INPUT).expect("type input");
    assert_eq!(ty.default, NodeValue::Combo(0));
    assert_ne!(ty.flags & oak_node::input::flags::NOT_CONNECTABLE, 0);
    assert_eq!(
        ty.properties.first(),
        Some(&(
            "combobox_strings".to_string(),
            NodeValue::Binary("Cross Dissolve,Fade,Wipe,Slide".as_bytes().to_vec())
        ))
    );
}

#[test]
fn transitionfx_shader_ids_cover_every_type_name() {
    assert_eq!(TYPE_NAMES.len(), SHADER_IDS.len());
    assert_eq!(shader_id_for(0), "crossdissolve");
    assert_eq!(shader_id_for(1), "fade");
    assert_eq!(shader_id_for(2), "wipe");
    assert_eq!(shader_id_for(3), "slide");
    assert_eq!(shader_id_for(-1), "crossdissolve");
    assert_eq!(shader_id_for(7), "slide");
}

#[test]
fn direction_names_cover_every_index() {
    assert_eq!(DIRECTION_NAMES.len(), 4);
    for (i, name) in DIRECTION_NAMES.iter().enumerate() {
        assert!(!name.is_empty(), "{i} has a label");
    }
}

#[test]
fn transitionfx_value_no_texture_pushes_nothing() {
    let (core, behavior) = create();
    let mut table = NodeValueTable::default();
    behavior.value(&core, &NodeValueRow::default(), Rational::new(0, 1), &mut table);
    assert!(table.is_empty());
}

#[test]
fn transitionfx_value_tex_only_pushes_tex() {
    let (core, behavior) = create();
    let input = tex();
    let inputs = row_of([(TEXTURE_INPUT.to_string(), input.clone())]);
    let mut table = NodeValueTable::default();
    behavior.value(&core, &inputs, Rational::new(0, 1), &mut table);
    assert_eq!(table.get(ValueType::Texture), Some(&input));
}

#[test]
fn transitionfx_value_blend_only_pushes_blend() {
    let (core, behavior) = create();
    let blend = tex();
    let inputs = row_of([(BLEND_INPUT.to_string(), blend.clone())]);
    let mut table = NodeValueTable::default();
    behavior.value(&core, &inputs, Rational::new(0, 1), &mut table);
    assert_eq!(table.get(ValueType::Texture), Some(&blend));
}

#[test]
fn transitionfx_value_both_pushes_job_payload_with_both_textures() {
    let (core, _) = create();
    let payload = run(&core, &both());
    assert_eq!(payload.type_id, "org.olivevideoeditor.Olive.transitionfx");
    assert_eq!(payload.shader_id, "crossdissolve", "combo default is index 0");
    assert_eq!(payload.iterations, 1);
    assert_eq!(payload.iterative_input, "");
    assert_eq!(payload.effect_input, TEXTURE_INPUT);
    assert!(payload.params.contains_key(TEXTURE_INPUT));
    assert!(payload.params.contains_key(BLEND_INPUT));
    assert!(
        !payload.params.contains_key(PROGRESS_INPUT),
        "the default progress stays out of the row so the layer can fill it"
    );
    assert_eq!(
        payload.params.get(COLOR_INPUT),
        Some(&color([0.0, 0.0, 0.0, 1.0])),
        "the style parameters ride along"
    );
}

#[test]
fn value_takes_type_from_row_and_core() {
    let (mut core, _) = create();
    let mut inputs = both();
    inputs.insert(TYPE_INPUT.to_string(), NodeValue::Combo(2));
    assert_eq!(run(&core, &inputs).shader_id, "wipe");

    core.set_standard_value(TYPE_INPUT, -1, NodeValue::Combo(3));
    assert_eq!(run(&core, &both()).shader_id, "slide");
}

#[test]
fn value_explicit_progress_stays_in_the_job() {
    let (core, _) = create();
    let mut inputs = both();
    inputs.insert(PROGRESS_INPUT.to_string(), float(0.75));
    let payload = run(&core, &inputs);
    assert_eq!(
        payload.params.get(PROGRESS_INPUT),
        Some(&float(0.75)),
        "a user-set progress overrides the layer sweep"
    );
}

#[test]
fn value_keyframed_progress_stays_in_the_job() {
    let (mut core, _) = create();
    core.set_track(PROGRESS_INPUT, -1, BoxedTrack { track: Box::new(SingleKey { value: float(0.0) }) });
    let mut inputs = both();
    inputs.insert(
        PROGRESS_INPUT.to_string(),
        core.value_at_time(PROGRESS_INPUT, -1, Rational::new(0, 1)),
    );
    let payload = run(&core, &inputs);
    assert_eq!(
        payload.params.get(PROGRESS_INPUT),
        Some(&float(0.0)),
        "a keyframed progress is authored, even when its value is 0"
    );
}

#[test]
fn transitionfx_shader_code_selects_variant_without_switch() {
    let n = TransitionFxNode;
    let sources: Vec<String> = SHADER_IDS
        .iter()
        .map(|id| n.shader_code(id).expect("shader source"))
        .collect();
    for (i, glsl) in sources.iter().enumerate() {
        assert!(glsl.contains("uniform sampler2D tex_in;"), "{i} binds tex_in");
        assert!(glsl.contains("uniform bool tex_in_enabled;"), "{i}");
        assert!(glsl.contains("uniform float progress_in;"), "{i}");
        assert!(!glsl.contains("switch"));
    }
    for i in [0usize, 2, 3] {
        assert!(
            sources[i].contains("uniform sampler2D blend_in;"),
            "{i} binds the second picture"
        );
        assert!(sources[i].contains("uniform bool blend_in_enabled;"), "{i}");
    }
    assert!(sources[1].contains("uniform vec4 color_in;"), "fade fades");
    for i in [2usize, 3] {
        assert!(
            sources[i].contains("uniform float direction_in;"),
            "{i} sweeps"
        );
    }
    for i in 0..sources.len() {
        for j in (i + 1)..sources.len() {
            assert_ne!(sources[i], sources[j], "types {i} and {j} differ");
        }
    }
    assert!(sources[0].contains("mix(tex_col, blend_col, progress_in)"));
    assert!(sources[1].contains("mix(color_in, tex_col, progress_in)"));
}

#[test]
fn transitionfx_shader_code_unknown_id_falls_back_to_cross_dissolve() {
    let n = TransitionFxNode;
    assert_eq!(
        n.shader_code("nonsense"),
        n.shader_code(SHADER_IDS[0]),
        "an unknown style id renders as cross dissolve"
    );
}

#[test]
fn transitionfx_duplicate_clones_behavior() {
    let (core, behavior) = create();
    let dup = behavior.duplicate(&core).unwrap();
    assert_eq!(dup.name(), "Transition FX");
}
