//! Texts: markup, templates, words and sets.

use oak_node::markup::{decode_entities, drop_tags, find_tag_end, skip_tag, strip};
use oak_node::placeholder::expand;
use oak_node::text::{decimal_chars, join_strings, precedes};
use oak_node::textset::TextSet;
use oak_node::words::{contains, to_lowercase, trim, white};

fn chars(s: &str) -> Vec<char> {
    s.chars().collect()
}

fn strings(list: &[&str]) -> Vec<String> {
    list.iter().map(|s| s.to_string()).collect()
}

#[test]
fn tags_go_before_entities_are_read() {
    assert_eq!(strip("<p>a &lt;b&gt; c</p>"), "a <b> c");
    // Dropping the tag joins the halves of an entity.
    assert_eq!(strip("&am<b>p;"), "&");
    // What an entity spells is not read again.
    assert_eq!(strip("&amp;lt;"), "&lt;");
    assert_eq!(strip("a < b"), "a ");
    assert_eq!(strip("a > b"), "a > b");
    assert_eq!(strip("&unknown; & &#39;&quot;&nbsp;"), "&unknown; & '\" ");
}

#[test]
fn text_without_markup_is_left_alone() {
    for plain in ["", "plain", "两行\n文本", "a > b; c"] {
        assert_eq!(strip(plain), plain);
    }
}

#[test]
fn tags_end_at_the_first_bracket() {
    let text = chars("a<b c>d>e");
    assert_eq!(find_tag_end(&text, 2), 5);
    assert_eq!(skip_tag(&text, 1), 6);
    assert_eq!(drop_tags(&text), chars("ad>e"));
    assert_eq!(find_tag_end(&chars("abc"), 1), 3);
    assert_eq!(skip_tag(&chars("<abc"), 0), 4);
    assert_eq!(decode_entities(&chars("&gt;&gt")), chars(">&gt"));
}

#[test]
fn placeholders_are_replaced() {
    let args = strings(&["one", "two"]);
    assert_eq!(expand("%1 and %2", &args), "one and two");
    assert_eq!(expand("100%% %1%", &args), "100% one%");
    assert_eq!(expand("%0|%3|%12", &args), "||");
    assert_eq!(expand("%01", &args), "one");
    assert_eq!(expand("%99999999999999999999", &args), "");
    assert_eq!(expand("%x", &args), "%x");
    assert_eq!(expand("no percent sign", &Vec::new()), "no percent sign");
    // Arguments are not read again, and come out as they are.
    assert_eq!(expand("%1", &strings(&["%1 é"])), "%1 é");
}

#[test]
fn templates_keep_their_text() {
    for plain in ["é", "字幕 — “text”", "\u{10FFFF}"] {
        assert_eq!(expand(plain, &Vec::new()), plain);
    }
    assert_eq!(expand("第%1集 é%%", &strings(&["3"])), "第3集 é%");
}

#[test]
fn doubled_percent_signs_stand_for_one() {
    for plain in ["%", "%%", "100% é", "%1 %x %", "%99"] {
        let doubled = plain.replace('%', "%%");
        assert_eq!(expand(&doubled, &strings(&["one"])), plain);
    }
}

#[test]
fn stripping_goes_part_by_part() {
    // Where the first part leaves neither a tag nor an entity open.
    for (a, b) in [("<b>a</b>", "&lt;c"), ("x &amp;", "<i>y"), ("é", ""), ("a > b; ", "amp;")] {
        assert_eq!(strip(&format!("{a}{b}")), format!("{}{}", strip(a), strip(b)));
    }
    assert_ne!(strip("&am") + &strip("p;"), strip("&amp;"));
}

#[test]
fn words_are_trimmed_and_found() {
    assert_eq!(trim(&chars("\u{A0} a b\t\u{2003}")), chars("a b"));
    assert_eq!(trim(&chars(" \n")), chars(""));
    for c in ['\u{9}', '\u{D}', ' ', '\u{85}', '\u{A0}', '\u{1680}', '\u{2028}', '\u{205F}', '\u{3000}'] {
        assert!(white(c) && c.is_whitespace(), "{c:?}");
    }
    for c in ['\u{8}', '\u{E}', 'a', '\u{200B}', '\u{FEFF}', '\u{180E}'] {
        assert!(!white(c) && !c.is_whitespace(), "{c:?}");
    }
    assert!(contains(&chars("gaussian"), &chars("ssi")));
    assert!(contains(&chars("abc"), &chars("")));
    assert!(!contains(&chars("abc"), &chars("abcd")));
    assert!(!contains(&chars("aab"), &chars("abb")));
}

#[test]
fn every_white_character_is_known() {
    for code in 0..0x11_0000u32 {
        if let Some(c) = char::from_u32(code) {
            assert_eq!(white(c), c.is_whitespace(), "{code:x}");
        }
    }
}

#[test]
fn lower_case_goes_beyond_ascii() {
    assert_eq!(to_lowercase("ÀΣ"), chars("àς"));
    assert_eq!(to_lowercase("İ"), chars("i\u{307}"));
    assert_eq!(to_lowercase("abc"), chars("abc"));
}

#[test]
fn numbers_are_spelled_in_decimal() {
    for n in [0, 7, 10, 12345, u64::MAX] {
        assert_eq!(decimal_chars(n).iter().collect::<String>(), n.to_string());
    }
}

#[test]
fn texts_are_joined_and_ordered() {
    assert_eq!(join_strings(&strings(&["a", "", "b"]), ','), "a,,b");
    assert_eq!(join_strings(&Vec::new(), ','), "");
    let words = ["", "B", "a", "ab", "b", "é", "文", "\u{10000}"];
    for a in words {
        for b in words {
            assert_eq!(precedes(a, b), a < b, "{a} < {b}");
        }
    }
}

#[test]
fn sets_list_their_texts_in_order() {
    let mut one = TextSet::new();
    let mut two = TextSet::new();
    for key in ["b", "a", "c", "a"] {
        one.insert(key.to_string());
    }
    for key in ["c", "b", "x", "a"] {
        assert!(two.insert(key.to_string()));
    }
    assert!(!two.insert("a".to_string()));
    assert!(two.remove("x"));
    assert!(!two.remove("x"));
    assert_eq!(one.to_vec(), strings(&["a", "b", "c"]));
    assert_eq!(one.to_vec(), two.to_vec());
    assert!(one.contains("b") && !one.contains("x"));
    assert!(!one.is_empty() && TextSet::new().is_empty());
    assert_eq!(one.clone().to_vec(), one.to_vec());
}
