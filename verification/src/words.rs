//! White space, case and search in text.

use vstd::prelude::*;

use crate::text;

verus! {

/// Whether a character is white space in the sense of Unicode.
pub open spec fn is_white(c: char) -> bool {
    let v = c as int;
    ||| 9 <= v <= 13
    ||| v == 0x20
    ||| v == 0x85
    ||| v == 0xA0
    ||| v == 0x1680
    ||| 0x2000 <= v <= 0x200A
    ||| v == 0x2028
    ||| v == 0x2029
    ||| v == 0x202F
    ||| v == 0x205F
    ||| v == 0x3000
}

/// Whether a character is white space.
pub fn white(c: char) -> (r: bool)
    ensures
        r == is_white(c),
{
    let v: u32 = c as u32;
    (9 <= v && v <= 13) || v == 0x20 || v == 0x85 || v == 0xA0 || v == 0x1680 || (0x2000 <= v && v
        <= 0x200A) || v == 0x2028 || v == 0x2029 || v == 0x202F || v == 0x205F || v == 0x3000
}

/// The text without the white space at its start.
pub open spec fn trimmed_start(s: Seq<char>) -> Seq<char>
    decreases s.len(),
{
    if s.len() > 0 && is_white(s[0]) {
        trimmed_start(s.skip(1))
    } else {
        s
    }
}

/// The text without the white space at its end.
pub open spec fn trimmed_end(s: Seq<char>) -> Seq<char>
    decreases s.len(),
{
    if s.len() > 0 && is_white(s.last()) {
        trimmed_end(s.drop_last())
    } else {
        s
    }
}

/// The text without the white space around it.
pub open spec fn trimmed(s: Seq<char>) -> Seq<char> {
    trimmed_end(trimmed_start(s))
}

/// Whether there is no white space around a text.
pub open spec fn is_trimmed(s: Seq<char>) -> bool {
    s.len() > 0 ==> !is_white(s[0]) && !is_white(s.last())
}

/// White space behind a text is no part of it.
pub proof fn lemma_trimmed_padded(s: Seq<char>, c: char)
    requires
        is_white(c),
    ensures
        trimmed(s.push(c)) == trimmed(s),
{
    lemma_trimmed_start_padded(s, c);
    let inner = trimmed_start(s);
    assert(inner.push(c).drop_last() =~= inner);
}

/// White space behind a text stays where the text does.
proof fn lemma_trimmed_start_padded(s: Seq<char>, c: char)
    requires
        is_white(c),
    ensures
        trimmed_start(s.push(c)) == (if trimmed_start(s).len() > 0 {
            trimmed_start(s).push(c)
        } else {
            Seq::empty()
        }),
    decreases s.len(),
{
    if s.len() == 0 {
        assert(s.push(c).skip(1) =~= Seq::empty());
        reveal_with_fuel(trimmed_start, 2);
    } else if is_white(s[0]) {
        assert(s.push(c).skip(1) =~= s.skip(1).push(c));
        lemma_trimmed_start_padded(s.skip(1), c);
    }
}

/// Where the text starts behind the white space at its start.
fn start_of(chars: &Vec<char>) -> (r: usize)
    ensures
        r <= chars@.len(),
        chars@.skip(r as int) == trimmed_start(chars@),
{
    let mut i: usize = 0;
    assert(chars@.skip(0) =~= chars@);
    while i < chars.len() && white(chars[i])
        invariant
            i <= chars@.len(),
            trimmed_start(chars@.skip(i as int)) == trimmed_start(chars@),
        decreases chars@.len() - i,
    {
        assert(chars@.skip(i as int).skip(1) =~= chars@.skip(i + 1));
        i = i + 1;
    }
    assert(i < chars@.len() ==> chars@.skip(i as int)[0] == chars@[i as int]);
    i
}

/// Drop the white space at the start.
pub fn trim_start(chars: &Vec<char>) -> (r: Vec<char>)
    ensures
        r@ == trimmed_start(chars@),
{
    let start: usize = start_of(chars);
    let mut out: Vec<char> = Vec::new();
    let mut i: usize = start;
    while i < chars.len()
        invariant
            start <= i <= chars@.len(),
            out@ == chars@.subrange(start as int, i as int),
        decreases chars@.len() - i,
    {
        out.push(chars[i]);
        i = i + 1;
        assert(out@ =~= chars@.subrange(start as int, i as int));
    }
    assert(out@ =~= chars@.skip(start as int));
    out
}

/// Drop the white space around a text.
pub fn trim(chars: &Vec<char>) -> (r: Vec<char>)
    ensures
        r@ == trimmed(chars@),
{
    let mut out: Vec<char> = trim_start(chars);
    while out.len() > 0 && white(out[out.len() - 1])
        invariant
            trimmed_end(out@) == trimmed(chars@),
        decreases out@.len(),
    {
        let ghost before = out@;
        out.pop();
        assert(out@ =~= before.drop_last());
    }
    out
}

/// Dropping white space at the start leaves none there.
proof fn lemma_trimmed_start(s: Seq<char>)
    ensures
        trimmed_start(s).len() > 0 ==> !is_white(trimmed_start(s)[0]),
        forall|c: char| trimmed_start(s).contains(c) ==> s.contains(c),
    decreases s.len(),
{
    if s.len() > 0 && is_white(s[0]) {
        lemma_trimmed_start(s.skip(1));
        assert forall|c: char| trimmed_start(s).contains(c) implies s.contains(c) by {
            assert(s.skip(1).contains(c));
            let k = choose|k: int| 0 <= k < s.skip(1).len() && s.skip(1)[k] == c;
            assert(s[k + 1] == c);
        }
    }
}

/// Dropping white space at the end leaves none there and keeps the start.
proof fn lemma_trimmed_end(s: Seq<char>)
    ensures
        trimmed_end(s).len() > 0 ==> !is_white(trimmed_end(s).last()) && trimmed_end(s)[0] == s[0],
        trimmed_end(s).len() <= s.len(),
        forall|c: char| trimmed_end(s).contains(c) ==> s.contains(c),
    decreases s.len(),
{
    if s.len() > 0 && is_white(s.last()) {
        lemma_trimmed_end(s.drop_last());
        assert forall|c: char| trimmed_end(s).contains(c) implies s.contains(c) by {
            assert(s.drop_last().contains(c));
            let k = choose|k: int| 0 <= k < s.drop_last().len() && s.drop_last()[k] == c;
            assert(s[k] == c);
        }
    }
}

/// A trimmed text has no white space around it, and no character that the
/// text did not have.
pub proof fn lemma_trimmed(s: Seq<char>)
    ensures
        is_trimmed(trimmed(s)),
        forall|c: char| trimmed(s).contains(c) ==> s.contains(c),
{
    lemma_trimmed_start(s);
    lemma_trimmed_end(trimmed_start(s));
}

/// A text without white space around it is left alone.
pub proof fn lemma_trimmed_stays(s: Seq<char>)
    requires
        is_trimmed(s),
    ensures
        trimmed(s) == s,
{
}

/// White space is a tab, the four line breaks of ASCII, a space, and the
/// wider spaces and line breaks of Unicode.
pub proof fn law_white_space_is_that_of_unicode(c: char, r: bool)
    requires
        call_ensures(white, (c,), r),
    ensures
        r <==> c == '\t' || c == '\n' || c == '\u{b}' || c == '\u{c}' || c == '\r' || c == ' ' || c
            == '\u{85}' || c == '\u{a0}' || c == '\u{1680}' || '\u{2000}' <= c <= '\u{200a}' || c
            == '\u{2028}' || c == '\u{2029}' || c == '\u{202f}' || c == '\u{205f}' || c
            == '\u{3000}',
{
}

/// White space around a text is no part of it.
pub proof fn lemma_padding_drops(before: Seq<char>, s: Seq<char>, after: Seq<char>)
    requires
        forall|k: int| 0 <= k < before.len() ==> is_white(#[trigger] before[k]),
        forall|k: int| 0 <= k < after.len() ==> is_white(#[trigger] after[k]),
    ensures
        trimmed(before + s + after) == trimmed(s),
    decreases before.len() + after.len(),
{
    let whole = before + s + after;
    if before.len() > 0 {
        let rest = before.skip(1);
        assert(whole.skip(1) =~= rest + s + after);
        assert forall|k: int| 0 <= k < rest.len() implies is_white(#[trigger] rest[k]) by {
            assert(rest[k] == before[k + 1]);
        }
        assert(whole[0] == before[0]);
        lemma_padding_drops(rest, s, after);
    } else if after.len() > 0 {
        let rest = after.drop_last();
        assert(whole =~= (before + s + rest).push(after.last()));
        assert(after.last() == after[after.len() - 1]);
        lemma_trimmed_padded(before + s + rest, after.last());
        lemma_padding_drops(before, s, rest);
    } else {
        assert(whole =~= s);
    }
}

/// Trimming drops the white space around a text, all of it and nothing
/// else.
pub proof fn law_trimming_drops_white_space_around(
    chars: &Vec<char>,
    r: Vec<char>,
    before: Seq<char>,
    inner: Seq<char>,
    after: Seq<char>,
)
    requires
        call_ensures(trim, (chars,), r),
        chars@ == before + inner + after,
        forall|k: int| 0 <= k < before.len() ==> is_white(#[trigger] before[k]),
        forall|k: int| 0 <= k < after.len() ==> is_white(#[trigger] after[k]),
        inner.len() > 0 ==> !is_white(inner[0]) && !is_white(inner.last()),
    ensures
        r@ == inner,
{
    lemma_padding_drops(before, inner, after);
}

/// Whether `part` stands in `s` at position `i`.
pub open spec fn stands_at(s: Seq<char>, part: Seq<char>, i: int) -> bool {
    0 <= i && i + part.len() <= s.len() && s.subrange(i, i + part.len()) == part
}

/// Whether `part` stands somewhere in `s`.
pub open spec fn holds(s: Seq<char>, part: Seq<char>) -> bool {
    exists|i: int| stands_at(s, part, i)
}

/// Whether `part` stands in `s` at position `i`.
fn matches_at(s: &Vec<char>, part: &Vec<char>, i: usize) -> (r: bool)
    requires
        i + part@.len() <= s@.len(),
    ensures
        r == stands_at(s@, part@, i as int),
{
    let total: usize = s.len();
    let mut j: usize = 0;
    while j < part.len()
        invariant
            j <= part@.len(),
            total == s@.len(),
            i + part@.len() <= total,
            forall|k: int| 0 <= k < j ==> s@[i + k] == part@[k],
        decreases part@.len() - j,
    {
        if s[i + j] != part[j] {
            assert(s@.subrange(i as int, i + part@.len())[j as int] == s@[i + j]);
            return false;
        }
        j = j + 1;
    }
    assert(s@.subrange(i as int, i + part@.len()) =~= part@);
    true
}

/// Whether `part` stands somewhere in `s`.
pub fn contains(s: &Vec<char>, part: &Vec<char>) -> (r: bool)
    ensures
        r == holds(s@, part@),
{
    if part.len() > s.len() {
        return false;
    }
    let last: usize = s.len() - part.len();
    let mut i: usize = 0;
    while i <= last
        invariant
            i <= last,
            last + part@.len() == s@.len(),
            forall|k: int| 0 <= k < i ==> !#[trigger] stands_at(s@, part@, k),
        decreases last - i,
    {
        if matches_at(s, part, i) {
            return true;
        }
        if i == last {
            assert forall|k: int| !#[trigger] stands_at(s@, part@, k) by {}
            return false;
        }
        i = i + 1;
    }
    false
}

/// The lowercase form of a text: what `str::to_lowercase` of std gives.
pub uninterp spec fn lowercase(s: Seq<char>) -> Seq<char>;

/// `str::to_lowercase` of std. Its result depends on the text alone, by
/// the case mapping of Unicode; nothing more is claimed of it.
#[verifier::external_body]
fn lowercase_of(s: &str) -> (r: String)
    ensures
        r@ == lowercase(s@),
{
    s.to_lowercase()
}

/// The lowercase form of a text.
pub fn to_lowercase(s: &str) -> (r: Vec<char>)
    ensures
        r@ == lowercase(s@),
{
    text::chars_of(lowercase_of(s).as_str())
}

} // verus!
