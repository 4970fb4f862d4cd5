//! Text generator.

use std::sync::{Arc, Mutex};

use oak_node::double::Double;
use oak_node::handle;
use oak_node::handle::{CHandle, Frame, Texture};
use oak_node::jobs;
use oak_node::jobs::ShaderJobPayload;
use oak_node::builtin::BuiltIn;
use oak_node::node::{NodeBehavior, NodeCore, XmlRead};
use oak_node::nodes::textbackend::{BoxedMeasure, BoxedRender, InputText, TextBackends, TextLayoutMode, TextLayoutRequest, TextLayoutSize, TextMeasure, TextPlacement, TextRender};
use oak_node::nodes::textpost::{GLOW_BLUR_SHADER_ID, GLOW_COLORIZE_SHADER_ID, GLOW_COLOR_INPUT, GLOW_ENABLED_INPUT, GLOW_RADIUS_INPUT, OUTLINE_COLORIZE_SHADER_ID, OUTLINE_COLOR_INPUT, OUTLINE_DILATE_SHADER_ID, OUTLINE_ENABLED_INPUT, OUTLINE_WIDTH_INPUT, POST_TEXTURE_INPUT, RESOLUTION_INPUT};
use oak_node::nodes::textv3::{ARGS_INPUT, COLOR_INPUT, DEFAULT_PLAIN_TEXT, FONT_FAMILY_INPUT, FONT_SIZE_INPUT, LEGACY_DEFAULT_TEXT_HTML, PLAIN_TEXT_INPUT, TEXT_INPUT, TextGeneratorV3, USE_ARGS_INPUT, VERTICAL_ALIGNMENT_INPUT, VerticalAlignment, create, migrate_legacy_html, strip_html_to_plain};
use oak_node::rational::Rational;
use oak_node::value::{Color, NodeValue, NodeValueRow, NodeValueTable, ValueType, Vec2};

/// A float value.
fn float(v: f64) -> NodeValue {
    NodeValue::Float(Double { bits: v.to_bits() })
}

/// A point value.
fn vec2(v: [f64; 2]) -> NodeValue {
    NodeValue::Vec2(Vec2 { x: Double { bits: v[0].to_bits() }, y: Double { bits: v[1].to_bits() } })
}

/// A color value.
fn color(v: [f64; 4]) -> NodeValue {
    NodeValue::Color(Color {
        r: Double { bits: v[0].to_bits() },
        g: Double { bits: v[1].to_bits() },
        b: Double { bits: v[2].to_bits() },
        a: Double { bits: v[3].to_bits() },
    })
}

#[test]
fn textv3_input_names() {
    let n = TextGeneratorV3 {
        dont_emit_valign: false,
        backends: TextBackends::none(),
    };
    assert_eq!(n.input_name(TEXT_INPUT), "Text");
    // The plain-text input shares the "Text" display name.
    assert_eq!(n.input_name(PLAIN_TEXT_INPUT), "Text");
    assert_eq!(n.input_name(FONT_FAMILY_INPUT), "Font Family");
    assert_eq!(n.input_name(FONT_SIZE_INPUT), "Font Size");
    assert_eq!(n.input_name(OUTLINE_ENABLED_INPUT), "Outline");
    assert_eq!(n.input_name(OUTLINE_COLOR_INPUT), "Outline Color");
    assert_eq!(n.input_name(OUTLINE_WIDTH_INPUT), "Outline Width");
    assert_eq!(n.input_name(GLOW_ENABLED_INPUT), "Glow");
    assert_eq!(n.input_name(GLOW_COLOR_INPUT), "Glow Color");
    assert_eq!(n.input_name(GLOW_RADIUS_INPUT), "Glow Radius");
    assert_eq!(n.input_name(VERTICAL_ALIGNMENT_INPUT), "Vertical Alignment");
    assert_eq!(n.input_name(ARGS_INPUT), "Arguments");
    assert_eq!(
        n.input_name(oak_node::nodes::generatorwithmerge::BASE_INPUT),
        "Base"
    );
    assert_eq!(
        n.input_name(oak_node::nodes::shapenodebase::POSITION_INPUT),
        "Position"
    );
    assert_eq!(
        n.input_name(oak_node::nodes::shapenodebase::SIZE_INPUT),
        "Size"
    );
    // The hidden use_args_in input has no display name override.
    assert_eq!(n.input_name(USE_ARGS_INPUT), USE_ARGS_INPUT);
}

#[test]
fn create_wires_inherited_and_own_inputs() {
    let (core, behavior) = create(&TextBackends::none());
    assert_eq!(behavior.type_id(), "org.olivevideoeditor.Olive.text3");
    assert_eq!(
        core.get_input(TEXT_INPUT).unwrap().value_type,
        ValueType::Text
    );
    assert!(core
        .get_input(TEXT_INPUT)
        .unwrap()
        .properties
        .iter()
        .any(|(k, v)| k == "vieweronly" && v == &NodeValue::Boolean(true)));
    let valign = core.get_input(VERTICAL_ALIGNMENT_INPUT).unwrap();
    assert_ne!(valign.flags & oak_node::input::flags::HIDDEN, 0);
    assert_ne!(valign.flags & oak_node::input::flags::NOT_CONNECTABLE, 0);
    assert_ne!(valign.flags & oak_node::input::flags::NOT_KEYFRAMABLE, 0);
    let use_args = core.get_input(USE_ARGS_INPUT).unwrap();
    assert_eq!(use_args.default, NodeValue::Boolean(true));
    let args = core.get_input(ARGS_INPUT).unwrap();
    assert_ne!(args.flags & oak_node::input::flags::ARRAY, 0);
    assert!(args
        .properties
        .iter()
        .any(|(k, v)| k == "arraystart" && v == &NodeValue::Int(1)));
    // The base has no color input of its own (ShapeNodeBase(false));
    // the font color input takes that exact slot.
    assert_eq!(
        core.get_input(oak_node::nodes::shapenodebase::COLOR_INPUT)
            .unwrap()
            .default,
        color([1.0, 1.0, 1.0, 1.0])
    );
    assert_eq!(
        core.standard_value(oak_node::nodes::shapenodebase::SIZE_INPUT, -1),
        vec2([400.0, 300.0])
    );
    assert_eq!(
        core.effect_input,
        oak_node::nodes::generatorwithmerge::BASE_INPUT
    );
    // Texts are made as clips, so the create menu does not list the node.
    assert_ne!(core.flags & oak_node::node::flags::DONT_SHOW_IN_CREATE_MENU, 0);
    // It stays a video effect: older chains must keep evaluating.
    assert_ne!(core.flags & oak_node::node::flags::VIDEO_EFFECT, 0);
}

/// Hidden from the add menus, still a working effect
/// node for the chains (and the footage path) that create it directly.
#[test]
fn hidden_from_create_menu_but_still_a_video_effect() {
    let (core, behavior) = create(&TextBackends::none());
    assert_eq!(behavior.type_id(), "org.olivevideoeditor.Olive.text3");
    assert_ne!(core.flags & oak_node::node::flags::DONT_SHOW_IN_CREATE_MENU, 0);
    assert_ne!(core.flags & oak_node::node::flags::VIDEO_EFFECT, 0);
}

#[test]
fn alignment_round_trip() {
    for v in [
        VerticalAlignment::Top,
        VerticalAlignment::Middle,
        VerticalAlignment::Bottom,
    ] {
        let gizmo = TextGeneratorV3::get_gizmo_alignment_from_ours(v);
        assert_eq!(TextGeneratorV3::get_our_alignment_from_gizmos(gizmo), v);
    }
    assert_eq!(
        TextGeneratorV3::get_gizmo_alignment_from_ours(VerticalAlignment::Top),
        0
    );
    assert_eq!(
        TextGeneratorV3::get_gizmo_alignment_from_ours(VerticalAlignment::Middle),
        2
    );
    assert_eq!(
        TextGeneratorV3::get_gizmo_alignment_from_ours(VerticalAlignment::Bottom),
        1
    );
    // Unknown gizmo values map to Top.
    assert_eq!(
        TextGeneratorV3::get_our_alignment_from_gizmos(99),
        VerticalAlignment::Top
    );
}

#[test]
fn format_string_expands_args() {
    let args = vec!["foo".to_string(), "bar".to_string()];
    assert_eq!(
        TextGeneratorV3::format_string("hello %1", &args),
        "hello foo"
    );
    assert_eq!(TextGeneratorV3::format_string("%2 %1", &args), "bar foo");
    // Out of range expands to nothing.
    assert_eq!(TextGeneratorV3::format_string("[%3]", &args), "[]");
    assert_eq!(TextGeneratorV3::format_string("[%0]", &args), "[]");
}

#[test]
fn format_string_percent_escapes() {
    let args = vec!["foo".to_string()];
    assert_eq!(TextGeneratorV3::format_string("100%%", &args), "100%");
    assert_eq!(TextGeneratorV3::format_string("%%1", &args), "%1");
    // Lone % before non-digit/non-% is copied verbatim.
    assert_eq!(TextGeneratorV3::format_string("%x %", &args), "%x %");
    // Trailing % is copied verbatim.
    assert_eq!(TextGeneratorV3::format_string("end%", &args), "end%");
}

#[test]
fn format_string_out_of_int_range_fails_to_zero() {
    let args = vec!["foo".to_string()];
    assert_eq!(
        TextGeneratorV3::format_string("%99999999999999999999", &args),
        ""
    );
    assert_eq!(TextGeneratorV3::format_string("%2147483648", &args), "");
    assert_eq!(TextGeneratorV3::format_string("%2147483647", &args), "");
}

#[test]
fn format_string_multidigit_and_reuse() {
    let args = vec!["a".to_string(), "b".to_string(), "c".to_string()];
    // %10 parses as index 10 (out of range with 3 args) -> empty.
    assert_eq!(TextGeneratorV3::format_string("%10", &args), "");
    assert_eq!(TextGeneratorV3::format_string("%2%2%2", &args), "bbb");
}

#[test]
fn layout_request_uses_olive_html_and_96dpi() {
    let mut row = NodeValueRow::default();
    row.insert(
        TEXT_INPUT.to_string(),
        NodeValue::Text("<p>Hi</p>".to_string()),
    );
    row.insert(
        oak_node::nodes::shapenodebase::SIZE_INPUT.to_string(),
        vec2([400.0, 300.0]),
    );
    // The HTML path, taken explicitly.
    let req = TextGeneratorV3::layout_request_path(false, &row);
    assert_eq!(req.text, written("<p>Hi</p>"));
    assert_eq!(req.mode, TextLayoutMode::OliveHtml);
    assert_eq!(req.dots_per_meter, 3780);
    assert_eq!(req.wrap_width, double(400.0));
}

#[test]
fn layout_request_plain_text_path_uses_structured_inputs() {
    let mut row = NodeValueRow::default();
    row.insert(
        PLAIN_TEXT_INPUT.to_string(),
        NodeValue::Text("hello".to_string()),
    );
    row.insert(
        FONT_FAMILY_INPUT.to_string(),
        NodeValue::StrCombo("Noto Sans".to_string()),
    );
    row.insert(FONT_SIZE_INPUT.to_string(), float(48.0));
    row.insert(
        oak_node::nodes::shapenodebase::SIZE_INPUT.to_string(),
        vec2([400.0, 300.0]),
    );
    // The row also carries legacy HTML: the plain path must ignore it.
    row.insert(
        TEXT_INPUT.to_string(),
        NodeValue::Text("<p>legacy</p>".to_string()),
    );
    let req = TextGeneratorV3::layout_request_path(true, &row);
    assert_eq!(req.text, written("hello"));
    assert_eq!(req.mode, TextLayoutMode::PlainText);
    assert_eq!(req.font_family, written("Noto Sans"));
    assert_eq!(req.font_size_pt, double(48.0));
    assert_eq!(req.dots_per_meter, 3780);
    assert_eq!(req.wrap_width, double(400.0));
}

#[test]
fn job_text_prefers_the_row_value() {
    let (core, _behavior) = create(&TextBackends::none());
    let mut row = NodeValueRow::default();
    row.insert(
        PLAIN_TEXT_INPUT.to_string(),
        NodeValue::Text("row plain".to_string()),
    );
    row.insert(
        TEXT_INPUT.to_string(),
        NodeValue::Text("row html".to_string()),
    );
    assert_eq!(
        TextGeneratorV3::job_text(true, &core, &row, Rational::new(0, 1)),
        written("row plain")
    );
    assert_eq!(
        TextGeneratorV3::job_text(false, &core, &row, Rational::new(0, 1)),
        written("row html")
    );
}

#[test]
fn job_text_falls_back_to_the_core_value() {
    let (mut core, _behavior) = create(&TextBackends::none());
    core.set_standard_value(
        PLAIN_TEXT_INPUT,
        -1,
        NodeValue::Text("core plain".to_string()),
    );
    core.set_standard_value(TEXT_INPUT, -1, NodeValue::Text("core html".to_string()));
    let row = NodeValueRow::default();
    assert_eq!(
        TextGeneratorV3::job_text(true, &core, &row, Rational::new(0, 1)),
        written("core plain")
    );
    assert_eq!(
        TextGeneratorV3::job_text(false, &core, &row, Rational::new(0, 1)),
        written("core html")
    );
}

/// A measuring hook for tests that only need one to be installed.
struct NoMeasure;

impl TextMeasure for NoMeasure {
    fn measure(&self, _request: &TextLayoutRequest) -> TextLayoutSize {
        TextLayoutSize::default()
    }
}

/// Hooks that measure only.
fn measuring() -> TextBackends {
    TextBackends { measure: Some(Arc::new(BoxedMeasure { hook: Box::new(NoMeasure) })), render: None }
}

/// Hooks that measure and draw.
fn drawing() -> TextBackends {
    TextBackends {
        measure: Some(Arc::new(BoxedMeasure { hook: Box::new(NoMeasure) })),
        render: Some(Arc::new(BoxedRender { hook: Box::new(SolidRender) })),
    }
}

/// The text of an input.
fn written(s: &str) -> InputText {
    InputText::Text(s.to_string())
}

/// A double.
fn double(v: f64) -> Double {
    Double { bits: v.to_bits() }
}

#[test]
fn measure_without_backend_returns_zero_size() {
    let mut row = NodeValueRow::default();
    row.insert(
        TEXT_INPUT.to_string(),
        NodeValue::Text("<p>Hi</p>".to_string()),
    );
    let (_req, doc) = TextGeneratorV3::measure_and_layout(&TextBackends::none(), &row);
    assert_eq!(doc.width, double(0.0));
    assert_eq!(doc.height, double(0.0));
}

#[test]
fn value_uses_plain_text_when_a_backend_is_installed() {
    let backends = measuring();
    assert!(TextGeneratorV3::plain_text_path(&backends));

    // The row carries an empty legacy HTML only: the non-empty plain
    // text default is what makes the job push, so this fails on the
    // legacy path (empty text, no base -> empty table).
    let (core, behavior) = create(&backends);
    let mut row = NodeValueRow::default();
    row.insert(TEXT_INPUT.to_string(), NodeValue::Text(String::new()));
    let mut table = NodeValueTable::default();
    behavior.value(&core, &row, Rational::new(0, 1), &mut table);
    assert!(matches!(
        table.get(ValueType::Texture),
        Some(NodeValue::Texture(h)) if h.is_null()
    ));

    // The public layout request follows the installed backend.
    let mut req_row = NodeValueRow::default();
    req_row.insert(
        PLAIN_TEXT_INPUT.to_string(),
        NodeValue::Text("hi".to_string()),
    );
    assert_eq!(
        TextGeneratorV3::layout_request(&backends, &req_row).mode,
        TextLayoutMode::PlainText
    );

    assert!(!TextGeneratorV3::plain_text_path(&TextBackends::none()));
}

#[test]
fn value_pushes_job_when_text_nonempty() {
    let (core, behavior) = create(&TextBackends::none());
    let mut row = NodeValueRow::default();
    row.insert(
        TEXT_INPUT.to_string(),
        NodeValue::Text("<p>Hi</p>".to_string()),
    );
    row.insert(USE_ARGS_INPUT.to_string(), NodeValue::Boolean(false));
    let mut table = NodeValueTable::default();
    behavior.value(&core, &row, Rational::new(0, 1), &mut table);
    assert!(matches!(
        table.get(ValueType::Texture),
        Some(NodeValue::Texture(h)) if h.is_null()
    ));
}

#[test]
fn value_expands_args_from_row() {
    let (core, behavior) = create(&TextBackends::none());
    let mut row = NodeValueRow::default();
    row.insert(
        TEXT_INPUT.to_string(),
        NodeValue::Text("Hello %1".to_string()),
    );
    row.insert(USE_ARGS_INPUT.to_string(), NodeValue::Boolean(true));
    row.insert(ARGS_INPUT.to_string(), NodeValue::Text("World".to_string()));
    let mut table = NodeValueTable::default();
    behavior.value(&core, &row, Rational::new(0, 1), &mut table);
    assert!(matches!(
        table.get(ValueType::Texture),
        Some(NodeValue::Texture(h)) if h.is_null()
    ));
    // The expanded text is carried by the (deferred) job, which has no
    // payload here; the expansion math itself is covered by
    // format_string tests.
}

#[test]
fn value_passes_base_through_when_text_empty() {
    let (core, behavior) = create(&TextBackends::none());
    let mut row = NodeValueRow::default();
    row.insert(TEXT_INPUT.to_string(), NodeValue::Text(String::new()));
    row.insert(
        oak_node::nodes::generatorwithmerge::BASE_INPUT.to_string(),
        NodeValue::Texture(handle::CHandle::null()),
    );
    let mut table = NodeValueTable::default();
    behavior.value(&core, &row, Rational::new(0, 1), &mut table);
    assert!(matches!(
        table.get(ValueType::Texture),
        Some(NodeValue::Texture(_))
    ));
}

#[test]
fn value_pushes_nothing_when_text_empty_and_no_base() {
    let (core, behavior) = create(&TextBackends::none());
    let mut row = NodeValueRow::default();
    // Which of the two texts is read depends on the hooks: both are empty.
    row.insert(PLAIN_TEXT_INPUT.to_string(), NodeValue::Text(String::new()));
    row.insert(TEXT_INPUT.to_string(), NodeValue::Text(String::new()));
    let mut table = NodeValueTable::default();
    behavior.value(&core, &row, Rational::new(0, 1), &mut table);
    assert!(table.is_empty());
}

#[test]
fn gizmo_activation_toggles_use_args() {
    let (mut core, mut behavior) = create(&TextBackends::none());
    let node = &mut behavior;
    node.gizmo_activated(&mut core);
    assert_eq!(
        core.standard_value(USE_ARGS_INPUT, -1),
        NodeValue::Boolean(false)
    );
    assert!(node.dont_emit_valign);
    node.gizmo_deactivated(&mut core);
    assert_eq!(
        core.standard_value(USE_ARGS_INPUT, -1),
        NodeValue::Boolean(true)
    );
    assert!(node.dont_emit_valign);
}

#[test]
fn set_vertical_alignment_undoable_maps_through_gizmo_alignment() {
    let (mut core, mut behavior) = create(&TextBackends::none());
    let node = &mut behavior;
    // Gizmo vcenter (2) maps back to Middle (1).
    node.set_vertical_alignment_undoable(&mut core, 2);
    assert_eq!(
        core.standard_value(VERTICAL_ALIGNMENT_INPUT, -1),
        NodeValue::Combo(1)
    );
}

#[test]
fn generate_frame_is_documented_noop() {
    let (core, behavior) = create(&TextBackends::none());
    let mut frame = handle::CHandle::null();
    behavior.generate_frame(&core, &mut frame, Rational::new(0, 1));
    assert!(frame.is_null());
}

#[test]
fn duplicate_copies_node() {
    let (_core, behavior) = create(&TextBackends::none());
    let copy = behavior.duplicate(&_core).unwrap();
    assert_eq!(copy.type_id(), "org.olivevideoeditor.Olive.text3");
    assert_eq!(copy.name(), "Text");
}

#[test]
fn redesign_inputs_have_defaults_and_flags() {
    let (core, _behavior) = create(&TextBackends::none());

    let plain = core.get_input(PLAIN_TEXT_INPUT).unwrap();
    assert_eq!(plain.value_type, ValueType::Text);
    assert_eq!(
        plain.default,
        NodeValue::Text(DEFAULT_PLAIN_TEXT.to_string())
    );

    let family = core.get_input(FONT_FAMILY_INPUT).unwrap();
    assert_eq!(family.value_type, ValueType::StrCombo);
    assert_eq!(family.default, NodeValue::StrCombo(String::new()));

    let size = core.get_input(FONT_SIZE_INPUT).unwrap();
    assert_eq!(size.value_type, ValueType::Float);
    assert_eq!(size.default, float(72.0));
    assert!(size
        .properties
        .iter()
        .any(|(k, v)| k == "min" && v == &float(1.0)));

    let outline = core.get_input(OUTLINE_ENABLED_INPUT).unwrap();
    assert_eq!(outline.value_type, ValueType::Boolean);
    assert_eq!(outline.default, NodeValue::Boolean(false));

    let outline_color = core.get_input(OUTLINE_COLOR_INPUT).unwrap();
    assert_eq!(outline_color.value_type, ValueType::Color);
    assert_eq!(
        outline_color.default,
        color([0.0, 0.0, 0.0, 1.0])
    );

    let outline_width = core.get_input(OUTLINE_WIDTH_INPUT).unwrap();
    assert_eq!(outline_width.value_type, ValueType::Float);
    assert_eq!(outline_width.default, float(2.0));
    assert!(outline_width
        .properties
        .iter()
        .any(|(k, v)| k == "min" && v == &float(0.0)));

    let glow = core.get_input(GLOW_ENABLED_INPUT).unwrap();
    assert_eq!(glow.value_type, ValueType::Boolean);
    assert_eq!(glow.default, NodeValue::Boolean(false));

    let glow_color = core.get_input(GLOW_COLOR_INPUT).unwrap();
    assert_eq!(glow_color.value_type, ValueType::Color);
    assert_eq!(glow_color.default, color([1.0, 1.0, 0.0, 1.0]));

    let glow_radius = core.get_input(GLOW_RADIUS_INPUT).unwrap();
    assert_eq!(glow_radius.value_type, ValueType::Float);
    assert_eq!(glow_radius.default, float(8.0));
    assert!(glow_radius
        .properties
        .iter()
        .any(|(k, v)| k == "min" && v == &float(0.0)));

    // Every styling input is user-facing (none hidden).
    for id in [
        PLAIN_TEXT_INPUT,
        FONT_FAMILY_INPUT,
        FONT_SIZE_INPUT,
        OUTLINE_ENABLED_INPUT,
        OUTLINE_COLOR_INPUT,
        OUTLINE_WIDTH_INPUT,
        GLOW_ENABLED_INPUT,
        GLOW_COLOR_INPUT,
        GLOW_RADIUS_INPUT,
    ] {
        assert_eq!(
            core.get_input(id).unwrap().flags & oak_node::input::flags::HIDDEN,
            0
        );
    }

    // The legacy input keeps its default and vieweronly property, and
    // is hidden.
    let legacy = core.get_input(TEXT_INPUT).unwrap();
    assert_eq!(
        legacy.default,
        NodeValue::Text(LEGACY_DEFAULT_TEXT_HTML.to_string())
    );
    assert_ne!(legacy.flags & oak_node::input::flags::HIDDEN, 0);
    assert!(legacy
        .properties
        .iter()
        .any(|(k, v)| k == "vieweronly" && v == &NodeValue::Boolean(true)));

    // The shape base still has no color input of its own
    // (ShapeNodeBase(false)); the font color input
    // takes that exact slot (white default).
    assert_eq!(
        core.get_input(oak_node::nodes::shapenodebase::COLOR_INPUT)
            .unwrap()
            .default,
        color([1.0, 1.0, 1.0, 1.0])
    );
}

#[test]
fn strip_html_to_plain_drops_tags() {
    assert_eq!(strip_html_to_plain("<p>a</p><p>b</p>"), "ab");
    assert_eq!(strip_html_to_plain("<br>"), "");
    assert_eq!(strip_html_to_plain("<p></p>"), "");
    assert_eq!(strip_html_to_plain("a<br>b"), "ab");
    // Whitespace is neither collapsed nor trimmed.
    assert_eq!(strip_html_to_plain("<p>a b</p>"), "a b");
    // A complete tag drops only itself; the text around it stays.
    assert_eq!(strip_html_to_plain("<p>abc"), "abc");
    // An unterminated tag swallows the remainder.
    assert_eq!(strip_html_to_plain("a<b"), "a");
    assert_eq!(strip_html_to_plain("<p"), "");
}

#[test]
fn strip_html_to_plain_decodes_entities() {
    assert_eq!(
        strip_html_to_plain("a &amp;&lt;&gt;&quot;&#39;&nbsp;b"),
        "a &<>\"' b"
    );
    // A bare '&' and unknown entities are kept verbatim, one pass only.
    assert_eq!(strip_html_to_plain("a & b &fake; c"), "a & b &fake; c");
    assert_eq!(strip_html_to_plain("&amp;amp;"), "&amp;");
    // Entities are decoded after tags are dropped: an encoded tag stays
    // literal text.
    assert_eq!(strip_html_to_plain("&lt;p&gt;"), "<p>");
}

#[test]
fn migrate_legacy_html_moves_stripped_text_once() {
    let (mut core, _behavior) = create(&TextBackends::none());
    core.set_standard_value(
        TEXT_INPUT,
        -1,
        NodeValue::Text("<p>Hello <b>World</b></p>".to_string()),
    );
    assert!(migrate_legacy_html(&mut core));
    assert_eq!(
        core.standard_value(PLAIN_TEXT_INPUT, -1),
        NodeValue::Text("Hello World".to_string())
    );
    // The legacy value is left untouched and further calls are no-ops.
    assert_eq!(
        core.standard_value(TEXT_INPUT, -1),
        NodeValue::Text("<p>Hello <b>World</b></p>".to_string())
    );
    assert!(!migrate_legacy_html(&mut core));
    assert_eq!(
        core.standard_value(PLAIN_TEXT_INPUT, -1),
        NodeValue::Text("Hello World".to_string())
    );
}

#[test]
fn migrate_legacy_html_leaves_defaults_and_edits_alone() {
    let (mut core, _behavior) = create(&TextBackends::none());
    // A node at its defaults: the legacy default HTML is not migrated
    // (a new node must keep its default text across a save/load).
    assert!(!migrate_legacy_html(&mut core));
    assert_eq!(
        core.standard_value(PLAIN_TEXT_INPUT, -1),
        NodeValue::Text(DEFAULT_PLAIN_TEXT.to_string())
    );

    // An edited plain text is never overwritten.
    core.set_standard_value(PLAIN_TEXT_INPUT, -1, NodeValue::Text("mine".to_string()));
    core.set_standard_value(TEXT_INPUT, -1, NodeValue::Text("<p>legacy</p>".to_string()));
    assert!(!migrate_legacy_html(&mut core));
    assert_eq!(
        core.standard_value(PLAIN_TEXT_INPUT, -1),
        NodeValue::Text("mine".to_string())
    );

    // A legacy HTML with no text content migrates nothing.
    core.set_standard_value(PLAIN_TEXT_INPUT, -1, NodeValue::Text(String::new()));
    core.set_standard_value(TEXT_INPUT, -1, NodeValue::Text("<p></p>".to_string()));
    assert!(!migrate_legacy_html(&mut core));
    assert_eq!(
        core.standard_value(PLAIN_TEXT_INPUT, -1),
        NodeValue::Text(String::new())
    );
}

#[test]
fn migrate_legacy_html_noop_without_plain_text_input() {
    // A core without plain_text_in is left alone.
    let mut core = NodeCore::new();
    core.add_input(oak_node::input::Input::new(
        TEXT_INPUT,
        ValueType::Text,
        NodeValue::Text("<p>x</p>".to_string()),
    ));
    assert!(!migrate_legacy_html(&mut core));
}

/// Paints the middle half of the raster (`x`, `y` in
/// `[dim / 4, 3 * dim / 4)`) solid white.
struct SolidRender;

impl TextRender for SolidRender {
    fn render(&self, _request: &TextLayoutRequest, placement: TextPlacement, raster: &mut [u8]) {
        let (w, h) = (placement.target.width as usize, placement.target.height as usize);
        for y in h / 4..3 * h / 4 {
            for x in w / 4..3 * w / 4 {
                let at = (y * w + x) * 4;
                raster[at..at + 4].copy_from_slice(&[255; 4]);
            }
        }
    }
}

/// The evaluation row of the post-process tests: a 16x16 raster with a
/// 2-pixel black outline and/or a 4-pixel yellow glow.
fn post_row(outline: bool, glow: bool) -> NodeValueRow {
    let mut row = NodeValueRow::new();
    row.insert(
        PLAIN_TEXT_INPUT.to_string(),
        NodeValue::Text("X".to_string()),
    );
    row.insert(USE_ARGS_INPUT.to_string(), NodeValue::Boolean(false));
    row.insert(
        oak_node::nodes::shapenodebase::SIZE_INPUT.to_string(),
        vec2([16.0, 16.0]),
    );
    row.insert(
        OUTLINE_ENABLED_INPUT.to_string(),
        NodeValue::Boolean(outline),
    );
    row.insert(
        OUTLINE_COLOR_INPUT.to_string(),
        color([0.0, 0.0, 0.0, 1.0]),
    );
    row.insert(OUTLINE_WIDTH_INPUT.to_string(), float(2.0));
    row.insert(GLOW_ENABLED_INPUT.to_string(), NodeValue::Boolean(glow));
    row.insert(
        GLOW_COLOR_INPUT.to_string(),
        color([1.0, 1.0, 0.0, 1.0]),
    );
    row.insert(GLOW_RADIUS_INPUT.to_string(), float(4.0));
    row
}

/// Evaluate the node and return the texture handle it pushed.
fn push_value(core: &NodeCore, behavior: &dyn NodeBehavior, row: &NodeValueRow) -> CHandle {
    let mut table = NodeValueTable::default();
    behavior.value(core, row, Rational::new(0, 1), &mut table);
    match table.get(ValueType::Texture) {
        Some(NodeValue::Texture(handle)) => handle.clone(),
        other => panic!("expected a texture row, got {other:?}"),
    }
}

/// The job payload boxed by a deferred texture handle.
fn job_of(handle: &CHandle) -> &ShaderJobPayload {
    jobs::shader_job(handle).expect("handle carries a ShaderJobPayload")
}

/// The shader id of the pass a deferred texture handle runs.
fn shader_id_of(handle: &CHandle) -> &str {
    &job_of(handle).shader_id
}

/// A texture-typed job param (the effect input or a merge layer).
fn param_texture<'a>(handle: &'a CHandle, input: &str) -> &'a CHandle {
    match job_of(handle).params.get(input) {
        Some(NodeValue::Texture(tex)) => tex,
        other => panic!("param {input:?} is not a texture: {other:?}"),
    }
}

/// A job param.
fn param<'a>(handle: &'a CHandle, input: &str) -> &'a NodeValue {
    job_of(handle).params.get(input).expect("param is there")
}

/// Identity of the shared box behind a handle: equal pointers mean that
/// the same texture was fed to both passes.
fn job_ptr(handle: &CHandle) -> usize {
    Arc::as_ptr(handle.boxed.as_ref().expect("a box")) as usize
}

/// The coverage frame behind a handle.
fn frame_of(handle: &CHandle) -> &Frame {
    match handle::boxed_texture(handle) {
        Some(Texture::Cpu(frame)) => frame,
        other => panic!("expected a CPU coverage frame, got {other:?}"),
    }
}

/// Assert `handle` boxes the 16x16 CPU coverage frame (not a shader job).
fn assert_cpu_texture(handle: &CHandle) {
    let frame = frame_of(handle);
    assert_eq!((frame.width, frame.height), (16, 16));
    assert_eq!(frame.coverage.len(), 16 * 16 * 4);
}

/// One pixel of a coverage frame, tinted.
fn pixel_of(handle: &CHandle, x: usize, y: usize) -> [f32; 4] {
    let frame = frame_of(handle);
    let at = (y * frame.width as usize + x) * 4;
    let tint = [frame.tint.r, frame.tint.g, frame.tint.b, frame.tint.a];
    std::array::from_fn(|c| {
        f32::from(frame.coverage[at + c]) / 255.0 * f64::from_bits(tint[c].bits) as f32
    })
}

#[test]
fn post_job_off_still_rasterizes_the_plain_text() {
    let backends = drawing();
    let (core, behavior) = create(&backends);
    let row = post_row(false, false);
    let handle = push_value(&core, &behavior, &row);
    // Both passes off with a backend installed: the plain (tinted)
    // raster, not the deferred null job.
    assert_cpu_texture(&handle);
    assert_eq!(pixel_of(&handle, 8, 8), [1.0, 1.0, 1.0, 1.0]);
    assert_eq!(pixel_of(&handle, 0, 0), [0.0, 0.0, 0.0, 0.0]);
}

#[test]
fn font_color_tints_the_raster_premultiplied() {
    let backends = drawing();
    let (core, behavior) = create(&backends);
    let mut row = post_row(false, false);
    row.insert(
        COLOR_INPUT.to_string(),
        color([1.0, 0.0, 0.0, 0.5]),
    );
    let handle = push_value(&core, &behavior, &row);
    assert_cpu_texture(&handle);
    // The white coverage scales per channel, alpha included.
    assert_eq!(pixel_of(&handle, 8, 8), [1.0, 0.0, 0.0, 0.5]);
    assert_eq!(pixel_of(&handle, 0, 0), [0.0, 0.0, 0.0, 0.0]);
}

#[test]
fn outline_chain_dilates_then_colorizes_over_the_text() {
    let backends = drawing();
    let (core, behavior) = create(&backends);
    let row = post_row(true, false);
    let handle = push_value(&core, &behavior, &row);

    // The pushed chain is the stroke merged with the text on top: the
    // text is the merge's top (`blend_in`) layer, its CPU coverage
    // raster the head of that branch.
    assert_eq!(shader_id_of(&handle), "mrg");
    let stroke = param_texture(&handle, oak_node::nodes::merge::BASE_INPUT);
    let text = param_texture(&handle, oak_node::nodes::merge::BLEND_INPUT);
    assert_cpu_texture(text);

    // The stroke is the colorized dilation of the raster.
    assert_eq!(shader_id_of(stroke), OUTLINE_COLORIZE_SHADER_ID);
    assert_eq!(param(stroke, OUTLINE_COLOR_INPUT), &color([0.0, 0.0, 0.0, 1.0]));
    assert_eq!(param(stroke, RESOLUTION_INPUT), &vec2([16.0, 16.0]));
    let dilated = param_texture(stroke, POST_TEXTURE_INPUT);
    assert_eq!(shader_id_of(dilated), OUTLINE_DILATE_SHADER_ID);
    assert_eq!(job_of(dilated).iterations, 1);
    assert_eq!(param(dilated, OUTLINE_WIDTH_INPUT), &float(2.0));
    assert_eq!(param(dilated, RESOLUTION_INPUT), &vec2([16.0, 16.0]));
    assert_eq!(
        job_ptr(param_texture(dilated, POST_TEXTURE_INPUT)),
        job_ptr(text)
    );
}

#[test]
fn glow_chain_blurs_once_per_axis_then_colorizes() {
    let backends = drawing();
    let (core, behavior) = create(&backends);
    let row = post_row(false, true);
    let handle = push_value(&core, &behavior, &row);

    // Glow only: the glow is merged beneath the bare text.
    assert_eq!(shader_id_of(&handle), "mrg");
    let glow = param_texture(&handle, oak_node::nodes::merge::BASE_INPUT);
    let text = param_texture(&handle, oak_node::nodes::merge::BLEND_INPUT);
    assert_cpu_texture(text);

    assert_eq!(shader_id_of(glow), GLOW_COLORIZE_SHADER_ID);
    assert_eq!(param(glow, GLOW_COLOR_INPUT), &color([1.0, 1.0, 0.0, 1.0]));
    assert_eq!(param(glow, RESOLUTION_INPUT), &vec2([16.0, 16.0]));
    let blurred = param_texture(glow, POST_TEXTURE_INPUT);
    assert_eq!(shader_id_of(blurred), GLOW_BLUR_SHADER_ID);
    // Two iterations: one per axis (horizontal, then vertical).
    assert_eq!(job_of(blurred).iterations, 2);
    assert_eq!(param(blurred, GLOW_RADIUS_INPUT), &float(4.0));
    assert_eq!(param(blurred, RESOLUTION_INPUT), &vec2([16.0, 16.0]));
    assert_eq!(
        job_ptr(param_texture(blurred, POST_TEXTURE_INPUT)),
        job_ptr(text)
    );
}

#[test]
fn outline_and_glow_glow_the_stroke() {
    let backends = drawing();
    let (core, behavior) = create(&backends);
    let row = post_row(true, true);
    let handle = push_value(&core, &behavior, &row);

    // Both on: the glow is drawn over the stroke (which is drawn over
    // the text), and it samples the stroke itself — the blur's input
    // is the stroke's merge job, not the bare coverage raster.
    assert_eq!(shader_id_of(&handle), "mrg");
    let glow = param_texture(&handle, oak_node::nodes::merge::BASE_INPUT);
    let stroke = param_texture(&handle, oak_node::nodes::merge::BLEND_INPUT);
    assert_eq!(shader_id_of(stroke), "mrg");

    let stroke_colorized = param_texture(stroke, oak_node::nodes::merge::BASE_INPUT);
    assert_eq!(shader_id_of(stroke_colorized), OUTLINE_COLORIZE_SHADER_ID);
    assert_cpu_texture(param_texture(stroke, oak_node::nodes::merge::BLEND_INPUT));

    let blurred = param_texture(glow, POST_TEXTURE_INPUT);
    assert_eq!(shader_id_of(blurred), GLOW_BLUR_SHADER_ID);
    assert_eq!(
        job_ptr(param_texture(blurred, POST_TEXTURE_INPUT)),
        job_ptr(stroke)
    );
}

/// A reader that counts what it skips.
struct Reader {
    skipped: usize,
}

impl XmlRead for Reader {
    fn skip_current_element(&mut self) {
        self.skipped += 1;
    }
}

#[test]
fn loading_skips_the_custom_element() {
    let (mut core, mut node) = create(&TextBackends::none());
    core.set_standard_value(TEXT_INPUT, -1, NodeValue::Text("<p>old</p>".to_string()));
    let mut reader = Reader { skipped: 0 };
    assert!(node.load_custom(&mut core, &mut reader));
    assert_eq!(reader.skipped, 1);
    assert_eq!(core.standard_value(PLAIN_TEXT_INPUT, -1), NodeValue::Text("old".to_string()));
    let mut built_in = BuiltIn::Text(node);
    assert!(built_in.load_custom(&mut core, &mut reader));
    assert_eq!(reader.skipped, 2);
    let (mut core, mut endpoint) = oak_node::nodes::graphendpoints::create_graph_input();
    assert!(endpoint.load_custom(&mut core, &mut reader));
    assert_eq!(reader.skipped, 3);
}

/// Notes where it is asked to draw.
struct NotingRender {
    seen: Arc<Mutex<Vec<TextPlacement>>>,
}

impl TextRender for NotingRender {
    fn render(&self, _request: &TextLayoutRequest, placement: TextPlacement, _raster: &mut [u8]) {
        self.seen.lock().expect("seen").push(placement);
    }
}

#[test]
fn texts_are_drawn_into_their_own_shape() {
    let seen = Arc::new(Mutex::new(Vec::new()));
    let hook = Box::new(NotingRender { seen: Arc::clone(&seen) });
    let backends = TextBackends { measure: None, render: Some(Arc::new(BoxedRender { hook })) };
    let text = InputText::Text("x".to_string());
    let NodeValue::Color(white) = color([1.0; 4]) else {
        panic!("no color");
    };
    let drawn = TextGeneratorV3::rasterize_text(
        &backends,
        &NodeValueRow::new(),
        &text,
        (7, 5),
        VerticalAlignment::Bottom,
        white,
    );
    assert!(matches!(drawn, Some(NodeValue::Texture(_))));
    let seen = seen.lock().expect("seen");
    assert_eq!(seen.len(), 1);
    let placement = seen[0];
    assert_eq!(placement.align, VerticalAlignment::Bottom);
    assert_eq!((placement.target.width, placement.target.height), (7, 5));
    assert_eq!((placement.target.linesize_bytes, placement.target.channel_count), (28, 4));
    let double = |v: f64| Double { bits: v.to_bits() };
    assert_eq!(placement.scale, double(1.0));
    assert_eq!(placement.base, (double(0.0), double(0.0)));
    assert_eq!(placement.size, (double(7.0), double(5.0)));
    assert_eq!(placement.doc, TextLayoutSize::default());
}
