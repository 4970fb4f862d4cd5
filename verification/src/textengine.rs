//! The text side of text rendering: which text a request lays out, and
//! which font families there are.

use vstd::prelude::*;

use crate::double;
use crate::double::Double;
use crate::markup;
use crate::nodes::textbackend;
use crate::nodes::textbackend::{
    InputText, RequestModel, TextLayoutMode, TextLayoutRequest, TextLayoutSize, TextModel,
};
use crate::text;
use crate::textset;
use crate::textset::TextSet;
use crate::words;

verus! {

/// The tags that start a new line.
pub const LINE_BREAK_TAGS: [&'static str; 21] = [
    "br",
    "/p",
    "/div",
    "/li",
    "/tr",
    "/h1",
    "/h2",
    "/h3",
    "/h4",
    "/h5",
    "/h6",
    "/blockquote",
    "/pre",
    "/table",
    "/ul",
    "/ol",
    "/dl",
    "/dt",
    "/dd",
    "/section",
    "/figure",
];

/// Whether a character is an ASCII letter or digit.
pub open spec fn is_alphanumeric(c: char) -> bool {
    ||| '0' <= c <= '9'
    ||| 'A' <= c <= 'Z'
    ||| 'a' <= c <= 'z'
}

/// The letters and digits that `s` starts with.
pub open spec fn word_prefix(s: Seq<char>) -> Seq<char>
    decreases s.len(),
{
    if s.len() > 0 && is_alphanumeric(s[0]) {
        seq![s[0]] + word_prefix(s.skip(1))
    } else {
        Seq::empty()
    }
}

/// The name of a tag, with a slash in front for an end tag. Attributes and
/// white space around the slash are no part of it.
pub open spec fn tag_name(tag: Seq<char>) -> Seq<char> {
    let inner = words::trimmed_start(tag);
    if inner.len() > 0 && inner[0] == '/' {
        seq!['/'] + word_prefix(words::trimmed_start(inner.skip(1)))
    } else {
        word_prefix(inner)
    }
}

/// Whether a tag in lowercase starts a new line.
pub open spec fn is_break(lowered: Seq<char>) -> bool {
    exists|i: int| 0 <= i < 21 && #[trigger] LINE_BREAK_TAGS@[i]@ == tag_name(lowered)
}

/// The inside of the tag that `s` starts with.
pub open spec fn tag_text(s: Seq<char>) -> Seq<char> {
    s.subrange(1, markup::tag_end(s, 1))
}

/// A character of a text, and how many line breaks stand before it.
pub type Placed = (nat, char);

/// The text without its tags. Before a character stand the line breaks of
/// the tags between it and the character before it, and `pending` ones
/// more before the first.
pub open spec fn placed(s: Seq<char>, pending: nat) -> Seq<Placed>
    decreases s.len(),
{
    if s.len() == 0 {
        Seq::empty()
    } else if s[0] == '<' {
        proof {
            markup::lemma_tag_end_bounds(s, 1);
        }
        if is_break(words::lowercase(tag_text(s))) {
            placed(markup::after_tag(s), pending + 1)
        } else {
            placed(markup::after_tag(s), pending)
        }
    } else {
        seq![(pending, s[0])] + placed(s.skip(1), 0)
    }
}

/// The characters without their line breaks.
pub open spec fn letters(m: Seq<Placed>) -> Seq<char> {
    m.map_values(|p: Placed| p.1)
}

/// How many line breaks there are.
pub open spec fn breaks_in(m: Seq<Placed>) -> nat
    decreases m.len(),
{
    if m.len() == 0 {
        0
    } else {
        breaks_in(m.drop_last()) + m.last().0
    }
}

/// The entities replaced. A character that an entity stands for comes
/// behind the line breaks that stood in the entity.
pub open spec fn resolved(m: Seq<Placed>) -> Seq<Placed>
    decreases m.len(),
{
    if m.len() == 0 {
        Seq::empty()
    } else {
        match markup::entity_at(letters(m)) {
            Some(e) => if 1 < e.1 <= m.len() {
                seq![(breaks_in(m.subrange(0, e.1)), e.0)] + resolved(m.skip(e.1))
            } else {
                Seq::empty()
            },
            None => seq![m[0]] + resolved(m.skip(1)),
        }
    }
}

/// Line breaks.
pub open spec fn newlines(n: nat) -> Seq<char> {
    Seq::new(n, |i: int| '\n')
}

/// The characters with their line breaks, but for those before the first.
pub open spec fn spelled(m: Seq<Placed>) -> Seq<char>
    decreases m.len(),
{
    if m.len() == 0 {
        Seq::empty()
    } else if m.len() == 1 {
        seq![m[0].1]
    } else {
        (spelled(m.drop_last()) + newlines(m.last().0)).push(m.last().1)
    }
}

/// Markup as plain text: tags dropped or turned into line breaks between
/// the text around them, entities replaced after that. White space is
/// neither collapsed nor trimmed.
pub open spec fn flattened(s: Seq<char>) -> Seq<char> {
    spelled(resolved(placed(s, 0)))
}

/// What two vectors hold: characters, and the line breaks before them.
pub open spec fn zipped(chars: Seq<char>, breaks: Seq<usize>) -> Seq<Placed> {
    Seq::new(chars.len(), |i: int| (breaks[i] as nat, chars[i]))
}

/// The letters and digits at position `i`.
fn read_word(chars: &Vec<char>) -> (r: Vec<char>)
    ensures
        r@ == word_prefix(chars@),
{
    let mut out: Vec<char> = Vec::new();
    let mut i: usize = 0;
    assert(chars@.skip(0) =~= chars@);
    assert(out@ + word_prefix(chars@) =~= word_prefix(chars@));
    while i < chars.len() && alphanumeric(chars[i])
        invariant
            i <= chars@.len(),
            out@ + word_prefix(chars@.skip(i as int)) == word_prefix(chars@),
        decreases chars@.len() - i,
    {
        let ghost rest = chars@.skip(i as int);
        assert(rest.skip(1) =~= chars@.skip(i + 1));
        assert(rest[0] == chars@[i as int]);
        assert(out@ + (seq![chars@[i as int]] + word_prefix(chars@.skip(i + 1))) =~= out@.push(
            chars@[i as int],
        ) + word_prefix(chars@.skip(i + 1)));
        out.push(chars[i]);
        i = i + 1;
    }
    assert(i < chars@.len() ==> chars@.skip(i as int)[0] == chars@[i as int]);
    assert(out@ + Seq::<char>::empty() =~= out@);
    out
}

/// Whether a character is an ASCII letter or digit.
fn alphanumeric(c: char) -> (r: bool)
    ensures
        r == is_alphanumeric(c),
{
    ('0' <= c && c <= '9') || ('A' <= c && c <= 'Z') || ('a' <= c && c <= 'z')
}

/// The name of a tag.
pub fn name_of_tag(tag: &Vec<char>) -> (r: Vec<char>)
    ensures
        r@ == tag_name(tag@),
{
    let inner: Vec<char> = words::trim_start(tag);
    if inner.len() > 0 && inner[0] == '/' {
        let mut behind: Vec<char> = Vec::new();
        let mut i: usize = 1;
        while i < inner.len()
            invariant
                1 <= i <= inner@.len(),
                behind@ == inner@.subrange(1, i as int),
            decreases inner@.len() - i,
        {
            behind.push(inner[i]);
            i = i + 1;
            assert(behind@ =~= inner@.subrange(1, i as int));
        }
        assert(behind@ =~= inner@.skip(1));
        let mut word: Vec<char> = read_word(&words::trim_start(&behind));
        let mut name: Vec<char> = Vec::new();
        name.push('/');
        name.append(&mut word);
        assert(name@ =~= tag_name(tag@));
        name
    } else {
        read_word(&inner)
    }
}

/// Whether a tag in lowercase starts a new line.
pub fn breaks_line(lowered: &Vec<char>) -> (r: bool)
    ensures
        r == is_break(lowered@),
{
    let name: String = text::string_of(&name_of_tag(lowered));
    let mut i: usize = 0;
    while i < 21
        invariant
            i <= 21,
            name@ == tag_name(lowered@),
            forall|j: int| 0 <= j < i ==> #[trigger] LINE_BREAK_TAGS@[j]@ != tag_name(lowered@),
        decreases 21 - i,
    {
        if text::same(LINE_BREAK_TAGS[i], name.as_str()) {
            assert(LINE_BREAK_TAGS@[i as int]@ == tag_name(lowered@));
            return true;
        }
        i = i + 1;
    }
    false
}

/// Whether the tag at position `i` starts a new line.
fn breaks_at(chars: &Vec<char>, i: usize) -> (r: bool)
    requires
        i < chars@.len(),
        chars@[i as int] == '<',
    ensures
        r == is_break(words::lowercase(tag_text(chars@.skip(i as int)))),
{
    let total: usize = chars.len();
    assert(i < total);
    let end: usize = markup::find_tag_end(chars, i + 1);
    let mut tag: Vec<char> = Vec::new();
    let mut k: usize = i + 1;
    while k < end
        invariant
            i + 1 <= k <= end <= chars@.len(),
            tag@ == chars@.subrange(i + 1, k as int),
        decreases end - k,
    {
        tag.push(chars[k]);
        k = k + 1;
        assert(tag@ =~= chars@.subrange(i + 1, k as int));
    }
    proof {
        markup::lemma_tag_end_shift(chars@, i as int, i + 1);
        assert(tag@ =~= tag_text(chars@.skip(i as int)));
    }
    let inside: String = text::string_of(&tag);
    breaks_line(&words::to_lowercase(inside.as_str()))
}

/// Append `n` line breaks.
fn push_newlines(out: &mut Vec<char>, n: usize)
    ensures
        final(out)@ == old(out)@ + newlines(n as nat),
{
    let mut i: usize = 0;
    assert(out@ =~= old(out)@ + newlines(0));
    while i < n
        invariant
            i <= n,
            out@ == old(out)@ + newlines(i as nat),
        decreases n - i,
    {
        out.push('\n');
        i = i + 1;
        assert(out@ =~= old(out)@ + newlines(i as nat));
    }
}

/// Drop the tags: the characters that are left, and how many line breaks
/// stand before each.
pub fn break_lines(chars: &Vec<char>) -> (r: (Vec<char>, Vec<usize>))
    ensures
        r.0@.len() == r.1@.len(),
        zipped(r.0@, r.1@) == placed(chars@, 0),
{
    let mut left: Vec<char> = Vec::new();
    let mut breaks: Vec<usize> = Vec::new();
    let mut pending: usize = 0;
    let mut i: usize = 0;
    let ghost whole = placed(chars@, 0);
    assert(chars@.skip(0) =~= chars@);
    assert(zipped(left@, breaks@) + whole =~= whole);
    while i < chars.len()
        invariant
            i <= chars@.len(),
            pending <= i,
            left@.len() == breaks@.len(),
            whole == zipped(left@, breaks@) + placed(chars@.skip(i as int), pending as nat),
        decreases chars@.len() - i,
    {
        let ghost rest = chars@.skip(i as int);
        assert(rest[0] == chars@[i as int]);
        if chars[i] == '<' {
            if breaks_at(chars, i) {
                pending = pending + 1;
            }
            i = markup::skip_tag(chars, i);
        } else {
            let ghost before = zipped(left@, breaks@);
            let ghost tail = placed(chars@.skip(i + 1), 0);
            assert(rest.skip(1) =~= chars@.skip(i + 1));
            left.push(chars[i]);
            breaks.push(pending);
            assert(zipped(left@, breaks@) =~= before.push((pending as nat, chars@[i as int])));
            assert(before + (seq![(pending as nat, chars@[i as int])] + tail) =~= zipped(
                left@,
                breaks@,
            ) + tail);
            pending = 0;
            i = i + 1;
        }
    }
    assert(chars@.skip(i as int) =~= Seq::empty());
    assert(zipped(left@, breaks@) + Seq::<Placed>::empty() =~= zipped(left@, breaks@));
    (left, breaks)
}

/// Append the line breaks before the characters from `i` to `end`.
fn push_breaks(out: &mut Vec<char>, chars: &Vec<char>, breaks: &Vec<usize>, i: usize, end: usize)
    requires
        i <= end <= breaks@.len(),
        chars@.len() == breaks@.len(),
    ensures
        final(out)@ == old(out)@ + newlines(
            breaks_in(zipped(chars@, breaks@).subrange(i as int, end as int)),
        ),
{
    let ghost all = zipped(chars@, breaks@);
    let mut k: usize = i;
    assert(out@ =~= old(out)@ + newlines(breaks_in(all.subrange(i as int, i as int))));
    while k < end
        invariant
            i <= k <= end <= breaks@.len(),
            chars@.len() == breaks@.len(),
            all == zipped(chars@, breaks@),
            out@ == old(out)@ + newlines(breaks_in(all.subrange(i as int, k as int))),
        decreases end - k,
    {
        let ghost more = all.subrange(i as int, k + 1);
        assert(more.drop_last() =~= all.subrange(i as int, k as int));
        push_newlines(out, breaks[k]);
        k = k + 1;
        assert(out@ =~= old(out)@ + newlines(breaks_in(more)));
    }
}

/// Replace the entities, and put the line breaks in.
pub fn join_lines(chars: &Vec<char>, breaks: &Vec<usize>) -> (r: Vec<char>)
    requires
        chars@.len() == breaks@.len(),
    ensures
        r@ == spelled(resolved(zipped(chars@, breaks@))),
{
    let ghost all = zipped(chars@, breaks@);
    let ghost mut done: Seq<Placed> = Seq::empty();
    let mut out: Vec<char> = Vec::new();
    let mut i: usize = 0;
    assert(all.skip(0) =~= all);
    assert(done + resolved(all) =~= resolved(all));
    while i < chars.len()
        invariant
            i <= chars@.len(),
            chars@.len() == breaks@.len(),
            all == zipped(chars@, breaks@),
            out@ == spelled(done),
            i > 0 <==> done.len() > 0,
            done + resolved(all.skip(i as int)) == resolved(all),
        decreases chars@.len() - i,
    {
        let ghost rest = all.skip(i as int);
        assert(letters(rest) =~= chars@.skip(i as int));
        let (c, length): (char, usize) = match markup::find_entity(chars, i) {
            Some(e) => e,
            None => (chars[i], 1),
        };
        let ghost n = breaks_in(all.subrange(i as int, i + length));
        proof {
            assert(rest.subrange(0, length as int) =~= all.subrange(i as int, i + length));
            assert(rest.skip(length as int) =~= all.skip(i + length));
            if length == 1 {
                lemma_breaks_of_one(all.subrange(i as int, i + 1));
                assert(rest[0] == (n, c));
            }
            assert(resolved(rest) == seq![(n, c)] + resolved(all.skip(i + length)));
            assert(done + (seq![(n, c)] + resolved(all.skip(i + length))) =~= done.push((n, c))
                + resolved(all.skip(i + length)));
            assert(done.push((n, c)).drop_last() =~= done);
        }
        if i > 0 {
            push_breaks(&mut out, chars, breaks, i, i + length);
        }
        out.push(c);
        proof {
            assert(out@ =~= spelled(done.push((n, c))));
            done = done.push((n, c));
        }
        i = i + length;
    }
    assert(all.skip(i as int) =~= Seq::empty());
    assert(done + Seq::<Placed>::empty() =~= done);
    out
}

/// The line breaks before one character.
proof fn lemma_breaks_of_one(m: Seq<Placed>)
    requires
        m.len() == 1,
    ensures
        breaks_in(m) == m[0].0,
{
    reveal_with_fuel(breaks_in, 2);
}

/// Markup as plain text, with line breaks between its blocks.
pub fn html_to_plain(html: &str) -> (r: String)
    ensures
        r@ == flattened(html@),
{
    let chars: Vec<char> = text::chars_of(html);
    let (left, breaks) = break_lines(&chars);
    text::string_of(&join_lines(&left, &breaks))
}

/// A text without its line breaks.
pub open spec fn without_newlines(s: Seq<char>) -> Seq<char> {
    s.filter(|c: char| c != '\n')
}

/// Dropping the tags leaves the text without them.
proof fn lemma_placed_letters(s: Seq<char>, pending: nat)
    ensures
        letters(placed(s, pending)) == markup::without_tags(s),
    decreases s.len(),
{
    if s.len() == 0 {
        assert(letters(placed(s, pending)) =~= Seq::empty());
    } else if s[0] == '<' {
        markup::lemma_tag_end_bounds(s, 1);
        lemma_placed_letters(markup::after_tag(s), pending);
        lemma_placed_letters(markup::after_tag(s), pending + 1);
    } else {
        lemma_placed_letters(s.skip(1), 0);
        assert(letters(placed(s, pending)) =~= seq![s[0]] + markup::without_tags(s.skip(1)));
    }
}

/// Entities are replaced as in the text without line breaks.
proof fn lemma_resolved_letters(m: Seq<Placed>)
    ensures
        letters(resolved(m)) == markup::decoded(letters(m)),
    decreases m.len(),
{
    if m.len() == 0 {
        assert(letters(resolved(m)) =~= markup::decoded(letters(m)));
    } else {
        markup::lemma_entity_bounds(letters(m));
        match markup::entity_at(letters(m)) {
            Some(e) => {
                lemma_resolved_letters(m.skip(e.1));
                assert(letters(m.skip(e.1)) =~= letters(m).skip(e.1));
                assert(letters(resolved(m)) =~= seq![e.0] + letters(resolved(m.skip(e.1))));
            },
            None => {
                lemma_resolved_letters(m.skip(1));
                assert(letters(m.skip(1)) =~= letters(m).skip(1));
                assert(letters(resolved(m)) =~= seq![m[0].1] + letters(resolved(m.skip(1))));
            },
        }
    }
}

/// Line breaks are nothing but line breaks.
proof fn lemma_newlines_drop(s: Seq<char>, n: nat)
    ensures
        without_newlines(s + newlines(n)) == without_newlines(s),
    decreases n,
{
    reveal(Seq::filter);
    if n == 0 {
        assert(s + newlines(0) =~= s);
    } else {
        assert((s + newlines(n)).drop_last() =~= s + newlines((n - 1) as nat));
        lemma_newlines_drop(s, (n - 1) as nat);
    }
}

/// Putting line breaks in changes nothing else.
proof fn lemma_spelled_letters(m: Seq<Placed>)
    ensures
        without_newlines(spelled(m)) == without_newlines(letters(m)),
    decreases m.len(),
{
    reveal(Seq::filter);
    if m.len() == 0 {
        assert(spelled(m) =~= letters(m));
    } else if m.len() == 1 {
        assert(spelled(m) =~= letters(m));
    } else {
        let shorter = m.drop_last();
        lemma_spelled_letters(shorter);
        lemma_newlines_drop(spelled(shorter), m.last().0);
        assert(spelled(m).drop_last() =~= spelled(shorter) + newlines(m.last().0));
        assert(letters(m).drop_last() =~= letters(shorter));
        assert(letters(m).last() == m.last().1);
    }
}

/// The text of flattened markup.
proof fn lemma_flattened_letters(s: Seq<char>)
    ensures
        letters(resolved(placed(s, 0))) == markup::stripped(s),
{
    lemma_placed_letters(s, 0);
    lemma_resolved_letters(placed(s, 0));
}

/// Apart from line breaks, flattening markup is stripping it.
pub proof fn law_flattening_is_stripping_with_line_breaks(s: Seq<char>)
    ensures
        without_newlines(flattened(s)) == without_newlines(markup::stripped(s)),
{
    lemma_flattened_letters(s);
    lemma_spelled_letters(resolved(placed(s, 0)));
}

/// Whether some tag of the text starts a new line.
pub open spec fn has_breaks(s: Seq<char>) -> bool
    decreases s.len(),
{
    if s.len() == 0 {
        false
    } else if s[0] == '<' {
        proof {
            markup::lemma_tag_end_bounds(s, 1);
        }
        is_break(words::lowercase(tag_text(s))) || has_breaks(markup::after_tag(s))
    } else {
        has_breaks(s.skip(1))
    }
}

/// Whether no line break stands before any character.
spec fn unbroken(m: Seq<Placed>) -> bool {
    forall|i: int| 0 <= i < m.len() ==> (#[trigger] m[i]).0 == 0
}

/// Without tags that start a new line there are no line breaks.
proof fn lemma_placed_unbroken(s: Seq<char>)
    requires
        !has_breaks(s),
    ensures
        unbroken(placed(s, 0)),
    decreases s.len(),
{
    if s.len() > 0 {
        if s[0] == '<' {
            markup::lemma_tag_end_bounds(s, 1);
            lemma_placed_unbroken(markup::after_tag(s));
        } else {
            lemma_placed_unbroken(s.skip(1));
        }
    }
}

/// Without line breaks there are none to count.
proof fn lemma_no_breaks(m: Seq<Placed>)
    requires
        unbroken(m),
    ensures
        breaks_in(m) == 0,
    decreases m.len(),
{
    if m.len() > 0 {
        lemma_no_breaks(m.drop_last());
    }
}

/// Replacing entities makes no line breaks.
proof fn lemma_resolved_unbroken(m: Seq<Placed>)
    requires
        unbroken(m),
    ensures
        unbroken(resolved(m)),
    decreases m.len(),
{
    if m.len() > 0 {
        markup::lemma_entity_bounds(letters(m));
        match markup::entity_at(letters(m)) {
            Some(e) => {
                lemma_no_breaks(m.subrange(0, e.1));
                lemma_resolved_unbroken(m.skip(e.1));
            },
            None => {
                lemma_resolved_unbroken(m.skip(1));
            },
        }
    }
}

/// Without line breaks there are only the characters.
proof fn lemma_spelled_unbroken(m: Seq<Placed>)
    requires
        unbroken(m),
    ensures
        spelled(m) == letters(m),
    decreases m.len(),
{
    if m.len() > 1 {
        lemma_spelled_unbroken(m.drop_last());
    }
    assert(spelled(m) =~= letters(m));
}

/// Without tags that start a new line, flattening markup is stripping it.
pub proof fn law_markup_without_breaks_is_stripped(s: Seq<char>)
    requires
        !has_breaks(s),
    ensures
        flattened(s) == markup::stripped(s),
{
    lemma_placed_unbroken(s);
    lemma_resolved_unbroken(placed(s, 0));
    lemma_spelled_unbroken(resolved(placed(s, 0)));
    lemma_flattened_letters(s);
}

/// A spelled text starts and ends with its first and last characters.
proof fn lemma_spelled_ends(m: Seq<Placed>)
    requires
        m.len() > 0,
    ensures
        spelled(m).len() > 0,
        spelled(m)[0] == m[0].1,
        spelled(m).last() == m.last().1,
    decreases m.len(),
{
    if m.len() > 1 {
        lemma_spelled_ends(m.drop_last());
    }
}

/// The line breaks that tags add stand between text: the flattened text
/// starts and ends as the stripped text does.
pub proof fn law_line_breaks_stand_between_text(s: Seq<char>)
    requires
        markup::stripped(s).len() > 0,
    ensures
        flattened(s).len() > 0,
        flattened(s)[0] == markup::stripped(s)[0],
        flattened(s).last() == markup::stripped(s).last(),
{
    let m = resolved(placed(s, 0));
    lemma_flattened_letters(s);
    assert(letters(m).len() == m.len());
    assert(letters(m)[0] == m[0].1);
    assert(letters(m).last() == m.last().1);
    lemma_spelled_ends(m);
}

/// A request with markup lays out what a plain request with the flattened
/// text lays out.
pub proof fn law_markup_is_laid_out_as_its_flattened_text(
    marked: RequestModel,
    plain: RequestModel,
    s: Seq<char>,
)
    requires
        marked.mode != TextLayoutMode::PlainText,
        plain.mode == TextLayoutMode::PlainText,
        marked.text == TextModel::Text(s),
        plain.text == TextModel::Text(flattened(s)),
    ensures
        laid_out_text(marked) == laid_out_text(plain),
{
}

/// The text that a request lays out: its own, or what its markup flattens
/// to. The text of a number has no markup.
pub open spec fn laid_out_text(request: RequestModel) -> TextModel {
    match request.mode {
        TextLayoutMode::PlainText => request.text,
        _ => match request.text {
            TextModel::Text(s) => TextModel::Text(flattened(s)),
            TextModel::Number(d) => TextModel::Number(d),
        },
    }
}

/// The text that a request lays out.
pub fn request_text(request: &TextLayoutRequest) -> (r: InputText)
    ensures
        r@ == laid_out_text(request@),
{
    match request.mode {
        TextLayoutMode::PlainText => request.text.duplicate(),
        _ => match &request.text {
            InputText::Text(s) => InputText::Text(html_to_plain(s.as_str())),
            InputText::Number(d) => InputText::Number(*d),
        },
    }
}

/// The font size of a request that states none: the bits of 72 points.
pub const DEFAULT_POINTS: u64 = double::SEVENTY_TWO;

/// The resolution of a request that states none, in dots per meter.
pub const DEFAULT_DOTS_PER_METER: i32 = 3780;

/// The font size when no other comes out: the bits of 96 pixels.
pub const DEFAULT_PIXELS: u64 = 0x4058_0000_0000_0000;

/// The largest font size: the bits of 8192 pixels.
pub const MAX_PIXELS: u64 = 0x40C0_0000_0000_0000;

/// The widest line: the bits of a million pixels.
pub const MAX_WRAP: u64 = 0x412E_8480_0000_0000;

/// The font size of a request in points; one that is no positive finite
/// number counts as the default.
pub fn font_points(request: &TextLayoutRequest) -> (r: Double)
    ensures
        r == (if request.font_size_pt.usable() {
            request.font_size_pt
        } else {
            Double { bits: DEFAULT_POINTS }
        }),
{
    if request.font_size_pt.is_usable() {
        request.font_size_pt
    } else {
        Double { bits: DEFAULT_POINTS }
    }
}

/// The resolution of a request; one that is not positive counts as the
/// default.
pub fn resolution(request: &TextLayoutRequest) -> (r: i32)
    ensures
        r == (if request.dots_per_meter > 0 {
            request.dots_per_meter
        } else {
            DEFAULT_DOTS_PER_METER
        }),
{
    if request.dots_per_meter > 0 {
        request.dots_per_meter
    } else {
        DEFAULT_DOTS_PER_METER
    }
}

/// The font size that is laid out where a size of `pixels` was computed:
/// at most the largest one, and the default where the computed size is no
/// positive finite number.
pub fn font_pixels(pixels: Double) -> (r: Double)
    ensures
        r == (if pixels.usable() {
            pixels.lesser(Double { bits: MAX_PIXELS })
        } else {
            Double { bits: DEFAULT_PIXELS }
        }),
{
    if pixels.is_usable() {
        pixels.min(Double { bits: MAX_PIXELS })
    } else {
        Double { bits: DEFAULT_PIXELS }
    }
}

/// The width a request wraps at, if it wraps at all.
pub fn wrap_limit(request: &TextLayoutRequest) -> (r: Option<Double>)
    ensures
        r == (if request.wrap_width.usable() {
            Some(request.wrap_width.lesser(Double { bits: MAX_WRAP }))
        } else {
            None
        }),
{
    if request.wrap_width.is_usable() {
        Some(request.wrap_width.min(Double { bits: MAX_WRAP }))
    } else {
        None
    }
}

/// The extent of a laid out line.
#[derive(Clone, Copy, PartialEq, Eq, Structural, Debug)]
pub struct LineExtent {
    /// The width of the line.
    pub width: Double,
    /// Where the line ends, from the top of the text.
    pub bottom: Double,
}

/// The size of a text with the given lines: as wide as its widest line,
/// and as high as its lowest one.
pub open spec fn size_of_lines(lines: Seq<LineExtent>) -> TextLayoutSize
    decreases lines.len(),
{
    if lines.len() == 0 {
        textbackend::zero_size()
    } else {
        let before = size_of_lines(lines.drop_last());
        TextLayoutSize {
            width: before.width.greater(lines.last().width),
            height: before.height.greater(lines.last().bottom),
        }
    }
}

/// The size of a text with the given lines.
pub fn document_size(lines: &Vec<LineExtent>) -> (r: TextLayoutSize)
    ensures
        r == size_of_lines(lines@),
{
    let mut size: TextLayoutSize = TextLayoutSize::default();
    let mut i: usize = 0;
    while i < lines.len()
        invariant
            i <= lines@.len(),
            size == size_of_lines(lines@.subrange(0, i as int)),
        decreases lines@.len() - i,
    {
        let ghost more = lines@.subrange(0, i + 1);
        assert(more.drop_last() =~= lines@.subrange(0, i as int));
        let line: LineExtent = lines[i];
        size = TextLayoutSize {
            width: size.width.max(line.width),
            height: size.height.max(line.bottom),
        };
        i = i + 1;
    }
    assert(lines@.subrange(0, i as int) =~= lines@);
    size
}

/// Every line fits in the size of its text, and the size is zero or one
/// that some line has.
pub proof fn law_sizes_hold_their_lines(lines: Seq<LineExtent>, i: int)
    requires
        0 <= i < lines.len(),
    ensures
        !size_of_lines(lines).width.below(lines[i].width),
        !size_of_lines(lines).height.below(lines[i].bottom),
        size_of_lines(lines).width == textbackend::zero_size().width || exists|k: int|
            0 <= k < lines.len() && size_of_lines(lines).width == (#[trigger] lines[k]).width,
        size_of_lines(lines).height == textbackend::zero_size().height || exists|k: int|
            0 <= k < lines.len() && size_of_lines(lines).height == (#[trigger] lines[k]).bottom,
    decreases lines.len(),
{
    let before = lines.drop_last();
    if before.len() > 0 {
        let j = if i < before.len() {
            i
        } else {
            0
        };
        law_sizes_hold_their_lines(before, j);
        assert forall|k: int| 0 <= k < before.len() implies before[k] == #[trigger] lines[k] by {}
        if size_of_lines(lines).width == size_of_lines(before).width && size_of_lines(before).width
            != textbackend::zero_size().width {
            let k = choose|k: int|
                0 <= k < before.len() && size_of_lines(before).width == (#[trigger] before[k]).width;
            assert(lines[k].width == size_of_lines(lines).width);
        }
        if size_of_lines(lines).height == size_of_lines(before).height && size_of_lines(
            before,
        ).height != textbackend::zero_size().height {
            let k = choose|k: int|
                0 <= k < before.len() && size_of_lines(before).height == (
                #[trigger] before[k]).bottom;
            assert(lines[k].bottom == size_of_lines(lines).height);
        }
    } else {
        assert(size_of_lines(before) == textbackend::zero_size());
    }
    assert(lines.last() == lines[lines.len() - 1]);
}

/// The font system of cosmic-text: the fonts that are loaded.
#[verifier::external_type_specification]
#[verifier::external_body]
pub struct ExFontSystem(cosmic_text::FontSystem);

/// The first family name of every face in a font system, in the order of
/// its database; none for a face without a family.
pub uninterp spec fn face_families(fonts: cosmic_text::FontSystem) -> Seq<Option<Seq<char>>>;

/// What a list of optional names holds.
pub open spec fn names_model(names: Seq<Option<String>>) -> Seq<Option<Seq<char>>> {
    names.map_values(
        |n: Option<String>|
            match n {
                Some(s) => Some(s@),
                None => None,
            },
    )
}

/// `FontSystem::db` and `Database::faces` of cosmic-text and its font
/// database: lists the first family name of every loaded face. The list
/// depends on the font system alone; which fonts are loaded is not stated.
#[verifier::external_body]
fn first_families(fonts: &cosmic_text::FontSystem) -> (r: Vec<Option<String>>)
    ensures
        names_model(r@) == face_families(*fonts),
{
    fonts.db().faces().map(|face| face.families.first().map(|family| family.0.clone())).collect()
}

/// The names in a list.
pub open spec fn named(names: Seq<Option<Seq<char>>>) -> Set<Seq<char>> {
    Set::new(|t: Seq<char>| names.contains(Some(t)))
}

/// The names in a list, sorted and each once.
pub fn sorted_families(names: &Vec<Option<String>>) -> (r: Vec<String>)
    ensures
        textset::ascending(text::strings_of(r@)),
        text::strings_of(r@).to_set() == named(names_model(names@)),
{
    let mut set: TextSet = TextSet::new();
    let mut i: usize = 0;
    let ghost model = names_model(names@);
    assert(named(model.subrange(0, 0)) =~= Set::empty());
    while i < names.len()
        invariant
            i <= names@.len(),
            model == names_model(names@),
            set@ == named(model.subrange(0, i as int)),
        decreases names@.len() - i,
    {
        let ghost so_far = model.subrange(0, i as int);
        let ghost more = model.subrange(0, i + 1);
        assert(more =~= so_far.push(model[i as int]));
        let ghost before = set@;
        match &names[i] {
            Some(name) => {
                set.insert(name.clone());
                proof {
                    assert forall|t: Seq<char>| named(more).contains(t) == before.insert(
                        name@,
                    ).contains(t) by {
                        lemma_pushed(so_far, model[i as int], Some(t));
                    }
                    assert(set@ =~= named(more));
                }
            },
            None => {
                proof {
                    assert forall|t: Seq<char>| named(more).contains(t) == before.contains(t) by {
                        lemma_pushed(so_far, model[i as int], Some(t));
                    }
                    assert(set@ =~= named(more));
                }
            },
        }
        i = i + 1;
    }
    assert(model.subrange(0, i as int) =~= model);
    set.to_vec()
}

/// What a longer list holds.
proof fn lemma_pushed(
    list: Seq<Option<Seq<char>>>,
    last: Option<Seq<char>>,
    item: Option<Seq<char>>,
)
    ensures
        list.push(last).contains(item) == (list.contains(item) || item == last),
{
    let more = list.push(last);
    if list.contains(item) {
        let k = choose|k: int| 0 <= k < list.len() && list[k] == item;
        assert(more[k] == item);
    }
    if item == last {
        assert(more[list.len() as int] == item);
    }
    if more.contains(item) {
        let k = choose|k: int| 0 <= k < more.len() && more[k] == item;
        if k < list.len() {
            assert(list[k] == item);
        }
    }
}

/// The font families of a font system, sorted and each once.
pub fn font_families(fonts: &cosmic_text::FontSystem) -> (r: Vec<String>)
    ensures
        textset::ascending(text::strings_of(r@)),
        text::strings_of(r@).to_set() == named(face_families(*fonts)),
{
    sorted_families(&first_families(fonts))
}

/// The names of the tags that start a new line.
pub open spec fn starts_a_line(name: Seq<char>) -> bool {
    ||| name == "br"@
    ||| name == "/p"@
    ||| name == "/div"@
    ||| name == "/li"@
    ||| name == "/tr"@
    ||| name == "/h1"@
    ||| name == "/h2"@
    ||| name == "/h3"@
    ||| name == "/h4"@
    ||| name == "/h5"@
    ||| name == "/h6"@
    ||| name == "/blockquote"@
    ||| name == "/pre"@
    ||| name == "/table"@
    ||| name == "/ul"@
    ||| name == "/ol"@
    ||| name == "/dl"@
    ||| name == "/dt"@
    ||| name == "/dd"@
    ||| name == "/section"@
    ||| name == "/figure"@
}

/// The letters and digits in front of anything else.
proof fn lemma_word_prefix(word: Seq<char>, behind: Seq<char>)
    requires
        forall|k: int| 0 <= k < word.len() ==> is_alphanumeric(#[trigger] word[k]),
        behind.len() > 0 ==> !is_alphanumeric(behind[0]),
    ensures
        word_prefix(word + behind) == word,
    decreases word.len(),
{
    let s = word + behind;
    if word.len() == 0 {
        assert(s =~= behind);
        assert(word =~= Seq::empty());
    } else {
        assert(s[0] == word[0]);
        assert(s.skip(1) =~= word.skip(1) + behind);
        assert forall|k: int| 0 <= k < word.skip(1).len() implies is_alphanumeric(
            #[trigger] word.skip(1)[k],
        ) by {
            assert(word.skip(1)[k] == word[k + 1]);
        }
        lemma_word_prefix(word.skip(1), behind);
        assert(word =~= seq![word[0]] + word.skip(1));
    }
}

/// White space in front is passed over.
proof fn lemma_white_front(white: Seq<char>, s: Seq<char>)
    requires
        forall|k: int| 0 <= k < white.len() ==> words::is_white(#[trigger] white[k]),
        s.len() > 0 ==> !words::is_white(s[0]),
    ensures
        words::trimmed_start(white + s) == s,
    decreases white.len(),
{
    let whole = white + s;
    if white.len() == 0 {
        assert(whole =~= s);
    } else {
        assert(whole[0] == white[0]);
        assert(whole.skip(1) =~= white.skip(1) + s);
        assert forall|k: int| 0 <= k < white.skip(1).len() implies words::is_white(
            #[trigger] white.skip(1)[k],
        ) by {
            assert(white.skip(1)[k] == white[k + 1]);
        }
        lemma_white_front(white.skip(1), s);
    }
}

/// A tag starts a new line by its name alone: the letters and digits it
/// starts with, behind a slash in an end tag. White space around the slash,
/// attributes and a closing slash do not count.
pub proof fn law_tags_break_lines_by_their_names(
    lowered: &Vec<char>,
    r: bool,
    white: Seq<char>,
    ends: bool,
    between: Seq<char>,
    word: Seq<char>,
    behind: Seq<char>,
)
    requires
        call_ensures(breaks_line, (lowered,), r),
        ends ==> lowered@ == white + seq!['/'] + between + word + behind,
        !ends ==> lowered@ == white + word + behind,
        forall|k: int| 0 <= k < white.len() ==> words::is_white(#[trigger] white[k]),
        forall|k: int| 0 <= k < between.len() ==> words::is_white(#[trigger] between[k]),
        word.len() > 0,
        forall|k: int|
            0 <= k < word.len() ==> '0' <= #[trigger] word[k] <= '9' || 'A' <= word[k] <= 'Z' || 'a'
                <= word[k] <= 'z',
        behind.len() > 0 ==> !('0' <= behind[0] <= '9' || 'A' <= behind[0] <= 'Z' || 'a' <= behind[0]
            <= 'z'),
    ensures
        r <==> starts_a_line(
            if ends {
                seq!['/'] + word
            } else {
                word
            },
        ),
{
    lemma_word_prefix(word, behind);
    let inner = word + behind;
    assert(inner[0] == word[0]);
    assert(!words::is_white(word[0]));
    if ends {
        let rest = between + inner;
        let tag = seq!['/'] + rest;
        assert(lowered@ =~= white + tag);
        lemma_white_front(white, tag);
        assert(tag.skip(1) =~= rest);
        lemma_white_front(between, inner);
        assert(tag_name(lowered@) == seq!['/'] + word);
    } else {
        assert(lowered@ =~= white + inner);
        lemma_white_front(white, inner);
        assert(tag_name(lowered@) == word);
    }
    lemma_break_names(tag_name(lowered@));
}

/// The listed names are the names of the tags that start a new line.
proof fn lemma_break_names(name: Seq<char>)
    ensures
        starts_a_line(name) <==> exists|i: int|
            0 <= i < 21 && #[trigger] LINE_BREAK_TAGS@[i]@ == name,
{
    let names = LINE_BREAK_TAGS@;
    assert(names[0]@ == "br"@ && names[1]@ == "/p"@ && names[2]@ == "/div"@);
    assert(names[3]@ == "/li"@ && names[4]@ == "/tr"@ && names[5]@ == "/h1"@);
    assert(names[6]@ == "/h2"@ && names[7]@ == "/h3"@ && names[8]@ == "/h4"@);
    assert(names[9]@ == "/h5"@ && names[10]@ == "/h6"@ && names[11]@ == "/blockquote"@);
    assert(names[12]@ == "/pre"@ && names[13]@ == "/table"@ && names[14]@ == "/ul"@);
    assert(names[15]@ == "/ol"@ && names[16]@ == "/dl"@ && names[17]@ == "/dt"@);
    assert(names[18]@ == "/dd"@ && names[19]@ == "/section"@ && names[20]@ == "/figure"@);
}

/// A row of tags.
pub open spec fn tags_in_a_row(tags: Seq<Seq<char>>) -> Seq<char>
    decreases tags.len(),
{
    if tags.len() == 0 {
        Seq::empty()
    } else {
        seq!['<'] + tags[0] + seq!['>'] + tags_in_a_row(tags.skip(1))
    }
}

/// How many tags of a row start a new line.
pub open spec fn lines_started(tags: Seq<Seq<char>>) -> nat
    decreases tags.len(),
{
    if tags.len() == 0 {
        0
    } else {
        lines_started(tags.skip(1)) + (if is_break(words::lowercase(tags[0])) {
            1nat
        } else {
            0nat
        })
    }
}

/// Reading on behind a row of tags.
proof fn lemma_tags_placed(tags: Seq<Seq<char>>, behind: Seq<char>, pending: nat)
    requires
        forall|k: int| 0 <= k < tags.len() ==> !(#[trigger] tags[k]).contains('>'),
    ensures
        placed(tags_in_a_row(tags) + behind, pending) == placed(
            behind,
            pending + lines_started(tags),
        ),
    decreases tags.len(),
{
    let s = tags_in_a_row(tags) + behind;
    if tags.len() == 0 {
        assert(s =~= behind);
    } else {
        let tag = tags[0];
        let rest = tags_in_a_row(tags.skip(1)) + behind;
        assert(s =~= seq!['<'] + tag + seq!['>'] + rest);
        assert forall|j: int| 1 <= j < tag.len() + 1 implies s[j] != '>' by {
            assert(s[j] == tag[j - 1]);
            assert(tag.contains(tag[j - 1]));
        }
        markup::lemma_tag_end_bounds(s, 1);
        assert(s[tag.len() as int + 1] == '>');
        assert(markup::tag_end(s, 1) == tag.len() + 1);
        assert(tag_text(s) =~= tag);
        assert(markup::after_tag(s) =~= rest);
        assert forall|k: int| 0 <= k < tags.skip(1).len() implies !(
        #[trigger] tags.skip(1)[k]).contains('>') by {
            assert(tags.skip(1)[k] == tags[k + 1]);
        }
        let now = if is_break(words::lowercase(tag)) {
            pending + 1
        } else {
            pending
        };
        lemma_tags_placed(tags.skip(1), behind, now);
    }
}

/// The characters of a text without markup, the first behind `pending` line
/// breaks.
spec fn laid(s: Seq<char>, pending: nat) -> Seq<Placed> {
    Seq::new(
        s.len(),
        |k: int|
            (
                if k == 0 {
                    pending
                } else {
                    0
                },
                s[k],
            ),
    )
}

proof fn lemma_plain_placed(front: Seq<char>, behind: Seq<char>, pending: nat)
    requires
        !front.contains('<'),
        front.len() > 0,
    ensures
        placed(front + behind, pending) == laid(front, pending) + placed(behind, 0),
    decreases front.len(),
{
    let s = front + behind;
    assert(s[0] == front[0] && front.contains(front[0]));
    assert(s.skip(1) =~= front.skip(1) + behind);
    if front.len() == 1 {
        assert(s.skip(1) =~= behind);
        assert(laid(front, pending) =~= seq![(pending, front[0])]);
    } else {
        assert forall|c: char| front.skip(1).contains(c) implies front.contains(c) by {
            let k = choose|k: int| 0 <= k < front.skip(1).len() && front.skip(1)[k] == c;
            assert(front[k + 1] == c);
        }
        lemma_plain_placed(front.skip(1), behind, 0);
        assert(laid(front, pending) =~= seq![(pending, front[0])] + laid(front.skip(1), 0));
        assert(seq![(pending, s[0])] + (laid(front.skip(1), 0) + placed(behind, 0)) =~= laid(
            front,
            pending,
        ) + placed(behind, 0));
    }
}

/// Without an ampersand there is nothing to resolve.
proof fn lemma_plain_resolved(m: Seq<Placed>)
    requires
        !letters(m).contains('&'),
    ensures
        resolved(m) == m,
    decreases m.len(),
{
    if m.len() > 0 {
        markup::lemma_entity_bounds(letters(m));
        assert(letters(m)[0] == m[0].1);
        assert(letters(m).contains(letters(m)[0]));
        assert forall|c: char| letters(m.skip(1)).contains(c) implies letters(m).contains(c) by {
            let k = choose|k: int| 0 <= k < letters(m.skip(1)).len() && letters(m.skip(1))[k] == c;
            assert(letters(m)[k + 1] == c);
        }
        lemma_plain_resolved(m.skip(1));
        assert(seq![m[0]] + m.skip(1) =~= m);
    } else {
        assert(resolved(m) =~= m);
    }
}

/// Text behind text is spelled with its line breaks between.
proof fn lemma_spelled_joined(m: Seq<Placed>, s: Seq<char>, pending: nat)
    requires
        m.len() > 0,
        s.len() > 0,
    ensures
        spelled(m + laid(s, pending)) == spelled(m) + newlines(pending) + s,
    decreases s.len(),
{
    let n = laid(s, pending);
    let whole = m + n;
    assert(whole.last() == n.last());
    if s.len() == 1 {
        assert(whole.drop_last() =~= m);
        assert((spelled(m) + newlines(pending)).push(s[0]) =~= spelled(m) + newlines(pending) + s);
    } else {
        let fewer = s.drop_last();
        assert(whole.drop_last() =~= m + laid(fewer, pending));
        lemma_spelled_joined(m, fewer, pending);
        assert(newlines(0) =~= Seq::empty());
        assert((spelled(m) + newlines(pending) + fewer + newlines(0)).push(s.last()) =~= spelled(m)
            + newlines(pending) + s);
    }
}

/// Between two texts without markup, tags become one line break for each of
/// them that starts a new line, and nothing else.
pub proof fn law_tags_between_texts_become_line_breaks(
    html: &str,
    r: String,
    front: Seq<char>,
    tags: Seq<Seq<char>>,
    behind: Seq<char>,
)
    requires
        call_ensures(html_to_plain, (html,), r),
        html@ == front + tags_in_a_row(tags) + behind,
        markup::is_plain(front),
        markup::is_plain(behind),
        front.len() > 0,
        behind.len() > 0,
        forall|k: int| 0 <= k < tags.len() ==> !(#[trigger] tags[k]).contains('>'),
    ensures
        r@ == front + newlines(lines_started(tags)) + behind,
{
    let n = lines_started(tags);
    let rest = tags_in_a_row(tags) + behind;
    assert(html@ =~= front + rest);
    lemma_plain_placed(front, rest, 0);
    lemma_tags_placed(tags, behind, 0);
    let nothing = Seq::<char>::empty();
    assert(behind + nothing =~= behind);
    lemma_plain_placed(behind, nothing, n);
    let first = laid(front, 0);
    let m = first + laid(behind, n);
    assert(placed(html@, 0) =~= m);
    assert(!letters(m).contains('&')) by {
        if letters(m).contains('&') {
            let k = choose|k: int| 0 <= k < letters(m).len() && letters(m)[k] == '&';
            if k < front.len() {
                assert(front[k] == '&');
            } else {
                assert(behind[k - front.len()] == '&');
            }
        }
    }
    lemma_plain_resolved(m);
    lemma_spelled_joined(first, behind, n);
    lemma_spelled_unbroken(first);
    assert(letters(first) =~= front);
}

/// Sizes and widths that are no positive finite numbers have defaults: a
/// font of 72 points, or of 96 pixels, at 3780 dots per meter, and lines
/// without an end. Others stay, up to 8192 pixels and a million pixels.
pub proof fn law_layouts_have_defaults_and_limits(
    request: &TextLayoutRequest,
    points: Double,
    dots: i32,
    wrap: Option<Double>,
    computed: Double,
    pixels: Double,
)
    requires
        call_ensures(font_points, (request,), points),
        call_ensures(resolution, (request,), dots),
        call_ensures(wrap_limit, (request,), wrap),
        call_ensures(font_pixels, (computed,), pixels),
    ensures
        !request.font_size_pt.usable() ==> points.bits == 0x4052_0000_0000_0000,
        request.font_size_pt.usable() ==> points == request.font_size_pt,
        request.dots_per_meter <= 0 ==> dots == 3780,
        request.dots_per_meter > 0 ==> dots == request.dots_per_meter,
        !request.wrap_width.usable() ==> wrap is None,
        request.wrap_width.usable() && request.wrap_width.at_most(
            Double { bits: 0x412E_8480_0000_0000 },
        ) ==> wrap == Some(request.wrap_width),
        request.wrap_width.usable() && (Double { bits: 0x412E_8480_0000_0000 }).below(
            request.wrap_width,
        ) ==> wrap == Some(Double { bits: 0x412E_8480_0000_0000 }),
        !computed.usable() ==> pixels.bits == 0x4058_0000_0000_0000,
        computed.usable() && computed.at_most(Double { bits: 0x40C0_0000_0000_0000 }) ==> pixels
            == computed,
        computed.usable() && (Double { bits: 0x40C0_0000_0000_0000 }).below(computed) ==> pixels
            == (Double { bits: 0x40C0_0000_0000_0000 }),
{
}

/// Markup is laid out as its plain text; a plain request and the text of a
/// number are laid out as they are.
pub proof fn law_only_markup_is_flattened(
    request: &TextLayoutRequest,
    r: InputText,
    html: &str,
    plain: String,
)
    requires
        call_ensures(request_text, (request,), r),
        call_ensures(html_to_plain, (html,), plain),
    ensures
        request.mode == TextLayoutMode::PlainText ==> r@ == request.text@,
        request.text is Number ==> r@ == request.text@,
        request.mode != TextLayoutMode::PlainText && request.text@ == TextModel::Text(html@) ==> r@
            == TextModel::Text(plain@),
{
}

/// A text without lines has no size.
pub proof fn law_no_lines_have_no_size(lines: &Vec<LineExtent>, r: TextLayoutSize)
    requires
        call_ensures(document_size, (lines,), r),
        lines@.len() == 0,
    ensures
        r.width.bits == 0,
        r.height.bits == 0,
{
}

/// The font families are listed in order, each once, and are those that
/// some face names.
pub proof fn law_families_are_listed_once(
    names: &Vec<Option<String>>,
    r: Vec<String>,
    i: int,
    j: int,
    t: Seq<char>,
)
    requires
        call_ensures(sorted_families, (names,), r),
    ensures
        0 <= i < j < r@.len() ==> text::text_less(r@[i]@, r@[j]@),
        (exists|k: int| 0 <= k < r@.len() && (#[trigger] r@[k])@ == t) <==> exists|k: int|
            0 <= k < names@.len() && ((#[trigger] names@[k]) matches Some(s) && s@ == t),
{
    let texts = text::strings_of(r@);
    let model = names_model(names@);
    if 0 <= i < j < r@.len() {
        assert(texts[i] == r@[i]@ && texts[j] == r@[j]@);
    }
    assert(texts.to_set().contains(t) == named(model).contains(t));
    if texts.contains(t) {
        let k = choose|k: int| 0 <= k < texts.len() && texts[k] == t;
        assert(r@[k]@ == t);
    }
    if exists|k: int| 0 <= k < r@.len() && (#[trigger] r@[k])@ == t {
        let k = choose|k: int| 0 <= k < r@.len() && (#[trigger] r@[k])@ == t;
        assert(texts[k] == t);
    }
    if model.contains(Some(t)) {
        let k = choose|k: int| 0 <= k < model.len() && model[k] == Some(t);
        assert(names@[k] matches Some(s) && s@ == t);
    }
    if exists|k: int| 0 <= k < names@.len() && ((#[trigger] names@[k]) matches Some(s) && s@ == t) {
        let k = choose|k: int|
            0 <= k < names@.len() && ((#[trigger] names@[k]) matches Some(s) && s@ == t);
        assert(model[k] == Some(t));
    }
}

/// Text in front of an ampersand is resolved as it is.
proof fn lemma_plain_front_resolved(first: Seq<Placed>, rest: Seq<Placed>)
    requires
        forall|k: int| 0 <= k < first.len() ==> (#[trigger] first[k]).1 != '&',
    ensures
        resolved(first + rest) == first + resolved(rest),
    decreases first.len(),
{
    let m = first + rest;
    if first.len() == 0 {
        assert(m =~= rest);
        assert(first + resolved(rest) =~= resolved(rest));
    } else {
        markup::lemma_entity_bounds(letters(m));
        assert(letters(m)[0] == first[0].1);
        let fewer = first.skip(1);
        assert(m.skip(1) =~= fewer + rest);
        assert forall|k: int| 0 <= k < fewer.len() implies (#[trigger] fewer[k]).1 != '&' by {
            assert(fewer[k] == first[k + 1]);
        }
        lemma_plain_front_resolved(fewer, rest);
        assert(seq![m[0]] + (fewer + resolved(rest)) =~= first + resolved(rest));
    }
}

/// The line breaks before the characters of two texts in a row.
proof fn lemma_breaks_of_two(a: Seq<char>, b: Seq<char>, n: nat)
    requires
        b.len() > 0,
    ensures
        breaks_in(laid(a, 0)) == 0,
        breaks_in(laid(a, 0) + laid(b, n)) == n,
    decreases b.len(),
{
    lemma_no_breaks(laid(a, 0));
    let m = laid(a, 0) + laid(b, n);
    assert(m.last() == laid(b, n).last());
    if b.len() == 1 {
        assert(m.drop_last() =~= laid(a, 0));
    } else {
        let fewer = b.drop_last();
        assert(m.drop_last() =~= laid(a, 0) + laid(fewer, n));
        lemma_breaks_of_two(a, fewer, n);
    }
}

/// Tags in the middle of an entity do not keep it apart: it becomes its
/// character, and the line breaks that the tags start stand before it.
pub proof fn law_entities_close_over_tags(
    html: &str,
    r: String,
    front: Seq<char>,
    start: Seq<char>,
    tags: Seq<Seq<char>>,
    end: Seq<char>,
    c: char,
    behind: Seq<char>,
)
    requires
        call_ensures(html_to_plain, (html,), r),
        html@ == front + start + tags_in_a_row(tags) + end + behind,
        markup::is_plain(front),
        markup::is_plain(behind),
        front.len() > 0,
        start.len() > 0,
        end.len() > 0,
        behind.len() > 0,
        markup::stands_for(start + end, c),
        forall|k: int| 0 <= k < tags.len() ==> !(#[trigger] tags[k]).contains('>'),
    ensures
        r@ == front + newlines(lines_started(tags)) + seq![c] + behind,
{
    let n = lines_started(tags);
    let entity = start + end;
    markup::lemma_entity_read(entity, c, behind);
    assert(!start.contains('<') && !end.contains('<')) by {
        if start.contains('<') {
            let k = choose|k: int| 0 <= k < start.len() && start[k] == '<';
            assert(entity[k] == '<');
        }
        if end.contains('<') {
            let k = choose|k: int| 0 <= k < end.len() && end[k] == '<';
            assert(entity[k + start.len()] == '<');
        }
    }
    let nothing = Seq::<char>::empty();
    let tail = end + behind;
    let middle = tags_in_a_row(tags) + tail;
    assert(html@ =~= front + (start + middle));
    lemma_plain_placed(front, start + middle, 0);
    lemma_plain_placed(start, middle, 0);
    lemma_tags_placed(tags, tail, 0);
    lemma_plain_placed(end, behind, n);
    assert(behind + nothing =~= behind);
    lemma_plain_placed(behind, nothing, 0);
    let first = laid(front, 0);
    let last = laid(behind, 0);
    let split = laid(start, 0) + laid(end, n);
    let rest = split + last;
    assert(placed(html@, 0) =~= first + rest);
    assert forall|k: int| 0 <= k < first.len() implies (#[trigger] first[k]).1 != '&' by {
        assert(front.contains(front[k]));
    }
    lemma_plain_front_resolved(first, rest);
    assert(letters(rest) =~= entity + behind);
    assert(rest.subrange(0, entity.len() as int) =~= split);
    assert(rest.skip(entity.len() as int) =~= last);
    lemma_breaks_of_two(start, end, n);
    assert(!letters(last).contains('&')) by {
        assert(letters(last) =~= behind);
    }
    lemma_plain_resolved(last);
    assert(laid(seq![c], n) =~= seq![(n, c)]);
    let m = first + laid(seq![c], n);
    assert(resolved(placed(html@, 0)) =~= m + last);
    lemma_spelled_joined(first, seq![c], n);
    lemma_spelled_joined(m, behind, 0);
    lemma_spelled_unbroken(first);
    assert(letters(first) =~= front);
    assert(newlines(0) =~= nothing);
    assert(r@ =~= front + newlines(n) + seq![c] + behind);
}

} // verus!
