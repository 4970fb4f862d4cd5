//! Which text is laid out, and which font families there are.

use cosmic_text::fontdb::{Database, FaceInfo, Language, Source, Stretch, Style, Weight, ID};
use cosmic_text::FontSystem;
use oak_node::double::Double;
use oak_node::markup::strip;
use oak_node::nodes::textbackend::{InputText, TextLayoutMode, TextLayoutRequest, TextLayoutSize};
use oak_node::textengine::{
    breaks_line, document_size, font_families, font_pixels, font_points, html_to_plain, name_of_tag, request_text,
    resolution, sorted_families, wrap_limit, LineExtent,
};

/// A request for `text`.
fn request(text: &str, mode: TextLayoutMode) -> TextLayoutRequest {
    TextLayoutRequest {
        text: InputText::Text(text.to_string()),
        mode,
        font_family: InputText::none(),
        font_size_pt: Double { bits: 72.0f64.to_bits() },
        dots_per_meter: 3780,
        wrap_width: Double { bits: 0 },
        center_horizontally: false,
    }
}

/// The characters of `s`.
fn chars(s: &str) -> Vec<char> {
    s.chars().collect()
}

#[test]
fn html_to_plain_decodes_and_breaks() {
    assert_eq!(html_to_plain("<b>a</b>"), "a");
    assert_eq!(html_to_plain("a<br>b"), "a\nb");
    assert_eq!(html_to_plain("a<br/>b"), "a\nb");
    assert_eq!(html_to_plain("<p>a</p><p>b</p>"), "a\nb");
    assert_eq!(html_to_plain("a</DIV>b"), "a\nb");
    assert_eq!(html_to_plain("&amp;&lt;&gt;&quot;&#39;&nbsp;"), "&<>\"' ");
    // Unknown entities and bare `&` survive untouched.
    assert_eq!(html_to_plain("a &b"), "a &b");
    // A decoded `&lt;p&gt;` is text, never rescanned into a tag.
    assert_eq!(html_to_plain("&lt;p&gt;"), "<p>");
    // Unterminated tags drop the remainder; trailing breaks are dropped.
    assert_eq!(html_to_plain("<p>a"), "a");
    assert_eq!(html_to_plain("a</p>"), "a");
}

#[test]
fn line_breaks_stand_between_text_only() {
    assert_eq!(html_to_plain("<br><br>a</p></div><b></b>"), "a");
    assert_eq!(html_to_plain("a<br><br>b"), "a\n\nb");
    assert_eq!(html_to_plain("a</p><i>b</i>"), "a\nb");
    assert_eq!(html_to_plain("a< / li class='x'>b"), "a\nb");
    // White space in the text itself stays.
    assert_eq!(html_to_plain("a\n</p>"), "a\n");
    assert_eq!(html_to_plain(" a  b "), " a  b ");
    assert_eq!(html_to_plain(""), "");
}

#[test]
fn flattening_is_stripping_with_line_breaks() {
    for html in [
        "&am</p>p;",
        "a&am</p>p;b",
        "&a<br>m<b>p</b>;x</p>",
        "<p>a</p>&lt;</div>b&unknown;",
        "<br>&<br>lt;",
        "a<br",
        "",
    ] {
        let flat: String = html_to_plain(html).chars().filter(|c| *c != '\n').collect();
        assert_eq!(flat, strip(html), "{html}");
    }
    // A break inside an entity goes before what the entity spells.
    assert_eq!(html_to_plain("a&am</p>p;b"), "a\n&b");
    assert_eq!(html_to_plain("&am</p>p;"), "&");
    // What is no entity keeps the break where it stands.
    assert_eq!(html_to_plain("a&x</p>y;"), "a&x\ny;");
}

#[test]
fn markup_lays_out_as_its_flattened_text() {
    for html in ["<p>a</p><p>b &amp; c</p>", "a<br><br>b", "plain", ""] {
        let plain = request(&html_to_plain(html), TextLayoutMode::PlainText);
        assert_eq!(request_text(&request(html, TextLayoutMode::Html)), request_text(&plain));
        assert_eq!(request_text(&request(html, TextLayoutMode::OliveHtml)), request_text(&plain));
    }
}

#[test]
fn tag_names_keep_the_slash_of_an_end_tag() {
    assert_eq!(name_of_tag(&chars("p style='x'")), chars("p"));
    assert_eq!(name_of_tag(&chars("  / h1 ")), chars("/h1"));
    assert_eq!(name_of_tag(&chars("!-- x")), chars(""));
    assert!(breaks_line(&chars("br/")));
    assert!(breaks_line(&chars("/figure")));
    assert!(!breaks_line(&chars("p")));
    assert!(!breaks_line(&chars("/span")));
}

#[test]
fn tag_case_is_folded() {
    // The kelvin sign folds to a plain k.
    assert_eq!(html_to_plain("a</bloc\u{212A}quote>b"), "a\nb");
    assert_eq!(html_to_plain("a<BR>b"), "a\nb");
    assert_eq!(html_to_plain("a</SPAN>b"), "ab");
}

#[test]
fn only_markup_requests_are_flattened() {
    let plain = request("<b>a</b>", TextLayoutMode::PlainText);
    assert_eq!(request_text(&plain), InputText::Text("<b>a</b>".to_string()));
    let html = request("<b>a</b>", TextLayoutMode::Html);
    assert_eq!(request_text(&html), InputText::Text("a".to_string()));
    let olive = request("x</p>y", TextLayoutMode::OliveHtml);
    assert_eq!(request_text(&olive), InputText::Text("x\ny".to_string()));
    let mut number = request("", TextLayoutMode::Html);
    number.text = InputText::Number(Double { bits: 1.5f64.to_bits() });
    assert_eq!(request_text(&number), InputText::Number(Double { bits: 1.5f64.to_bits() }));
}

#[test]
fn font_families_are_sorted_and_unique() {
    let fonts = FontSystem::new();
    let families = font_families(&fonts);
    assert!(
        !families.is_empty(),
        "the system font database has no family"
    );
    let mut sorted = families.clone();
    sorted.sort();
    sorted.dedup();
    assert_eq!(families, sorted);
    assert_eq!(font_families(&fonts), families);
}

/// A face with the given family names.
fn face(families: &[&str]) -> FaceInfo {
    FaceInfo {
        id: ID::dummy(),
        source: Source::Binary(std::sync::Arc::new(Vec::<u8>::new())),
        index: 0,
        families: families
            .iter()
            .map(|name| (name.to_string(), Language::English_UnitedStates))
            .collect(),
        post_script_name: String::new(),
        style: Style::Normal,
        weight: Weight::NORMAL,
        stretch: Stretch::Normal,
        monospaced: false,
    }
}

#[test]
fn font_families_take_the_first_name_of_each_face() {
    let mut db = Database::new();
    db.push_face_info(face(&["Serif", "Other"]));
    db.push_face_info(face(&["Mono"]));
    db.push_face_info(face(&["Serif"]));
    db.push_face_info(face(&[]));
    let fonts = FontSystem::new_with_locale_and_db("en-US".to_string(), db);
    assert_eq!(font_families(&fonts), vec!["Mono".to_string(), "Serif".to_string()]);
}

#[test]
fn family_names_are_sorted_by_character() {
    let names = vec![
        Some("b".to_string()),
        None,
        Some("文".to_string()),
        Some("B".to_string()),
        Some("b".to_string()),
        Some("ab".to_string()),
    ];
    let sorted: Vec<String> = ["B", "ab", "b", "文"].iter().map(|s| s.to_string()).collect();
    assert_eq!(sorted_families(&names), sorted);
    assert!(sorted_families(&Vec::new()).is_empty());
}

#[test]
fn requests_fall_back_to_usable_sizes() {
    let mut req = request("x", TextLayoutMode::PlainText);
    assert_eq!(font_points(&req), Double { bits: 72.0f64.to_bits() });
    req.font_size_pt = Double { bits: 36.0f64.to_bits() };
    assert_eq!(font_points(&req), Double { bits: 36.0f64.to_bits() });
    for bad in [0.0, -5.0, f64::NAN, f64::INFINITY] {
        req.font_size_pt = Double { bits: bad.to_bits() };
        assert_eq!(font_points(&req), Double { bits: 72.0f64.to_bits() });
    }
    assert_eq!(resolution(&req), 3780);
    req.dots_per_meter = 7560;
    assert_eq!(resolution(&req), 7560);
    for bad in [0, -1] {
        req.dots_per_meter = bad;
        assert_eq!(resolution(&req), 3780);
    }
}

#[test]
fn computed_sizes_are_bounded() {
    let double = |v: f64| Double { bits: v.to_bits() };
    assert_eq!(font_pixels(double(40.0)), double(40.0));
    assert_eq!(font_pixels(double(1e9)), double(8192.0));
    for bad in [0.0, -1.0, f64::NAN, f64::INFINITY] {
        assert_eq!(font_pixels(double(bad)), double(96.0));
    }
}

#[test]
fn wrapping_needs_a_usable_width() {
    let double = |v: f64| Double { bits: v.to_bits() };
    let mut req = request("x", TextLayoutMode::PlainText);
    assert_eq!(wrap_limit(&req), None);
    req.wrap_width = double(200.0);
    assert_eq!(wrap_limit(&req), Some(double(200.0)));
    req.wrap_width = double(5e6);
    assert_eq!(wrap_limit(&req), Some(double(1e6)));
    for bad in [-1.0, f64::NAN, f64::INFINITY] {
        req.wrap_width = double(bad);
        assert_eq!(wrap_limit(&req), None);
    }
}

#[test]
fn a_text_is_as_large_as_its_largest_lines() {
    let double = |v: f64| Double { bits: v.to_bits() };
    let line = |width: f64, bottom: f64| LineExtent { width: double(width), bottom: double(bottom) };
    assert_eq!(document_size(&Vec::new()), TextLayoutSize::default());
    let size = document_size(&vec![line(40.0, 12.0), line(90.5, 24.0), line(3.0, 36.0)]);
    assert_eq!(size, TextLayoutSize { width: double(90.5), height: double(36.0) });
    let odd = document_size(&vec![line(f64::NAN, -1.0), line(2.0, f64::NAN)]);
    assert_eq!(odd, TextLayoutSize { width: double(2.0), height: double(0.0) });
}
