//! Markup to plain text: tags, character entities and line breaks.

use vstd::prelude::*;

use crate::text;

verus! {

/// The position of the first `>` at or after `i`, or the length of the
/// text when there is none.
pub open spec fn tag_end(s: Seq<char>, i: int) -> int
    decreases s.len() - i,
{
    if i < 0 || i >= s.len() {
        s.len() as int
    } else if s[i] == '>' {
        i
    } else {
        tag_end(s, i + 1)
    }
}

/// A tag ends inside the text.
pub proof fn lemma_tag_end_bounds(s: Seq<char>, i: int)
    requires
        0 <= i <= s.len(),
    ensures
        i <= tag_end(s, i) <= s.len(),
        tag_end(s, i) < s.len() ==> s[tag_end(s, i)] == '>',
        forall|j: int| i <= j < tag_end(s, i) ==> s[j] != '>',
    decreases s.len() - i,
{
    if i < s.len() && s[i] != '>' {
        lemma_tag_end_bounds(s, i + 1);
    }
}

/// What is left behind the tag that `s` starts with: a tag without an end
/// takes everything.
pub open spec fn after_tag(s: Seq<char>) -> Seq<char> {
    if tag_end(s, 1) < s.len() {
        s.skip(tag_end(s, 1) + 1)
    } else {
        Seq::empty()
    }
}

/// The text without its tags.
pub open spec fn without_tags(s: Seq<char>) -> Seq<char>
    decreases s.len(),
{
    if s.len() == 0 {
        Seq::empty()
    } else if s[0] == '<' {
        proof {
            lemma_tag_end_bounds(s, 1);
        }
        without_tags(after_tag(s))
    } else {
        seq![s[0]] + without_tags(s.skip(1))
    }
}

/// The entity that `s` starts with: the character it stands for, and its
/// length. A non-breaking space becomes a plain space.
pub open spec fn entity_at(s: Seq<char>) -> Option<(char, int)> {
    if "&amp;"@.is_prefix_of(s) {
        Some(('&', 5))
    } else if "&lt;"@.is_prefix_of(s) {
        Some(('<', 4))
    } else if "&gt;"@.is_prefix_of(s) {
        Some(('>', 4))
    } else if "&quot;"@.is_prefix_of(s) {
        Some(('"', 6))
    } else if "&#39;"@.is_prefix_of(s) {
        Some(('\'', 5))
    } else if "&nbsp;"@.is_prefix_of(s) {
        Some((' ', 6))
    } else {
        None
    }
}

/// A text starts with the first character of its prefix.
proof fn lemma_prefix_first(prefix: Seq<char>, s: Seq<char>)
    requires
        prefix.len() > 0,
        prefix.is_prefix_of(s),
    ensures
        prefix.len() <= s.len(),
        s[0] == prefix[0],
{
    assert(s.subrange(0, prefix.len() as int)[0] == s[0]);
}

/// An entity lies inside the text and starts with an ampersand.
pub proof fn lemma_entity_bounds(s: Seq<char>)
    ensures
        entity_at(s) matches Some(e) ==> 1 < e.1 <= s.len() && s[0] == '&',
{
    reveal_strlit("&amp;");
    reveal_strlit("&lt;");
    reveal_strlit("&gt;");
    reveal_strlit("&quot;");
    reveal_strlit("&#39;");
    reveal_strlit("&nbsp;");
    if "&amp;"@.is_prefix_of(s) {
        lemma_prefix_first("&amp;"@, s);
    } else if "&lt;"@.is_prefix_of(s) {
        lemma_prefix_first("&lt;"@, s);
    } else if "&gt;"@.is_prefix_of(s) {
        lemma_prefix_first("&gt;"@, s);
    } else if "&quot;"@.is_prefix_of(s) {
        lemma_prefix_first("&quot;"@, s);
    } else if "&#39;"@.is_prefix_of(s) {
        lemma_prefix_first("&#39;"@, s);
    } else if "&nbsp;"@.is_prefix_of(s) {
        lemma_prefix_first("&nbsp;"@, s);
    }
}

/// The text with its entities replaced, each once; an unknown entity and
/// a bare ampersand stay.
pub open spec fn decoded(s: Seq<char>) -> Seq<char>
    decreases s.len(),
{
    if s.len() == 0 {
        Seq::empty()
    } else {
        match entity_at(s) {
            Some(e) => {
                if 1 < e.1 <= s.len() {
                    seq![e.0] + decoded(s.skip(e.1))
                } else {
                    Seq::empty()
                }
            },
            None => seq![s[0]] + decoded(s.skip(1)),
        }
    }
}

/// The text without its tags, its entities replaced after that. White
/// space is neither collapsed nor trimmed.
pub open spec fn stripped(s: Seq<char>) -> Seq<char> {
    decoded(without_tags(s))
}

/// Whether `chars` has `prefix` at position `i`.
fn has_prefix_at(chars: &Vec<char>, i: usize, prefix: &str) -> (r: bool)
    requires
        i <= chars@.len(),
    ensures
        r == prefix@.is_prefix_of(chars@.skip(i as int)),
{
    let wanted: Vec<char> = text::chars_of(prefix);
    if wanted.len() > chars.len() - i {
        return false;
    }
    let mut j: usize = 0;
    let total: usize = chars.len();
    while j < wanted.len()
        invariant
            j <= wanted@.len(),
            total == chars@.len(),
            wanted@ == prefix@,
            i + wanted@.len() <= chars@.len(),
            forall|k: int| 0 <= k < j ==> wanted@[k] == chars@[i + k],
        decreases wanted@.len() - j,
    {
        if wanted[j] != chars[i + j] {
            assert(chars@.skip(i as int)[j as int] == chars@[i + j]);
            return false;
        }
        j = j + 1;
    }
    assert(prefix@ =~= chars@.skip(i as int).subrange(0, prefix@.len() as int));
    true
}

/// The entity at position `i`.
pub fn find_entity(chars: &Vec<char>, i: usize) -> (r: Option<(char, usize)>)
    requires
        i <= chars@.len(),
    ensures
        match r {
            Some(e) => entity_at(chars@.skip(i as int)) == Some((e.0, e.1 as int)) && 1 < e.1 && i
                + e.1 <= chars@.len(),
            None => entity_at(chars@.skip(i as int)) is None,
        },
{
    proof {
        lemma_entity_bounds(chars@.skip(i as int));
    }
    if has_prefix_at(chars, i, "&amp;") {
        Some(('&', 5))
    } else if has_prefix_at(chars, i, "&lt;") {
        Some(('<', 4))
    } else if has_prefix_at(chars, i, "&gt;") {
        Some(('>', 4))
    } else if has_prefix_at(chars, i, "&quot;") {
        Some(('"', 6))
    } else if has_prefix_at(chars, i, "&#39;") {
        Some(('\'', 5))
    } else if has_prefix_at(chars, i, "&nbsp;") {
        Some((' ', 6))
    } else {
        None
    }
}

/// Replace the entities.
pub fn decode_entities(chars: &Vec<char>) -> (r: Vec<char>)
    ensures
        r@ == decoded(chars@),
{
    let mut out: Vec<char> = Vec::new();
    let mut i: usize = 0;
    assert(chars@.skip(0) =~= chars@);
    while i < chars.len()
        invariant
            i <= chars@.len(),
            out@ + decoded(chars@.skip(i as int)) == decoded(chars@),
        decreases chars@.len() - i,
    {
        let ghost rest = chars@.skip(i as int);
        match find_entity(chars, i) {
            Some((c, length)) => {
                assert(rest.skip(length as int) =~= chars@.skip(i + length));
                assert(out@ + (seq![c] + decoded(chars@.skip(i + length))) =~= out@.push(c)
                    + decoded(chars@.skip(i + length)));
                out.push(c);
                i = i + length;
            },
            None => {
                assert(rest.skip(1) =~= chars@.skip(i + 1));
                assert(out@ + (seq![chars@[i as int]] + decoded(chars@.skip(i + 1))) =~= out@.push(
                    chars@[i as int],
                ) + decoded(chars@.skip(i + 1)));
                out.push(chars[i]);
                i = i + 1;
            },
        }
    }
    assert(chars@.skip(i as int) =~= Seq::empty());
    assert(out@ + Seq::<char>::empty() =~= out@);
    out
}

/// The position of the first `>` at or after `i`, or the length of the
/// text.
pub fn find_tag_end(chars: &Vec<char>, i: usize) -> (r: usize)
    requires
        i <= chars@.len(),
    ensures
        r == tag_end(chars@, i as int),
        i <= r <= chars@.len(),
{
    let mut end: usize = i;
    while end < chars.len() && chars[end] != '>'
        invariant
            i <= end <= chars@.len(),
            tag_end(chars@, i as int) == tag_end(chars@, end as int),
        decreases chars@.len() - end,
    {
        end = end + 1;
    }
    end
}

/// Tag ends do not depend on what stands before the tag.
pub proof fn lemma_tag_end_shift(s: Seq<char>, i: int, j: int)
    requires
        0 <= i <= j <= s.len(),
    ensures
        tag_end(s, j) == i + tag_end(s.skip(i), j - i),
    decreases s.len() - j,
{
    if j < s.len() {
        assert(s.skip(i)[j - i] == s[j]);
        if s[j] != '>' {
            lemma_tag_end_shift(s, i, j + 1);
        }
    }
}

/// Where reading goes on behind the tag at position `i`.
pub fn skip_tag(chars: &Vec<char>, i: usize) -> (r: usize)
    requires
        i < chars@.len(),
        chars@[i as int] == '<',
    ensures
        i < r <= chars@.len(),
        chars@.skip(r as int) == after_tag(chars@.skip(i as int)),
{
    let total: usize = chars.len();
    assert(i < total);
    let end: usize = find_tag_end(chars, i + 1);
    proof {
        lemma_tag_end_shift(chars@, i as int, i + 1);
    }
    if end < total {
        assert(chars@.skip(end + 1) =~= chars@.skip(i as int).skip(end - i + 1));
        end + 1
    } else {
        assert(chars@.skip(end as int) =~= Seq::empty());
        end
    }
}

/// Drop the tags.
pub fn drop_tags(chars: &Vec<char>) -> (r: Vec<char>)
    ensures
        r@ == without_tags(chars@),
{
    let mut out: Vec<char> = Vec::new();
    let mut i: usize = 0;
    assert(chars@.skip(0) =~= chars@);
    while i < chars.len()
        invariant
            i <= chars@.len(),
            out@ + without_tags(chars@.skip(i as int)) == without_tags(chars@),
        decreases chars@.len() - i,
    {
        let ghost rest = chars@.skip(i as int);
        if chars[i] == '<' {
            i = skip_tag(chars, i);
        } else {
            assert(rest.skip(1) =~= chars@.skip(i + 1));
            assert(out@ + (seq![chars@[i as int]] + without_tags(chars@.skip(i + 1)))
                =~= out@.push(chars@[i as int]) + without_tags(chars@.skip(i + 1)));
            out.push(chars[i]);
            i = i + 1;
        }
    }
    assert(chars@.skip(i as int) =~= Seq::empty());
    assert(out@ + Seq::<char>::empty() =~= out@);
    out
}

/// Drop the tags, then replace the entities.
pub fn strip(html: &str) -> (r: String)
    ensures
        r@ == stripped(html@),
{
    let chars: Vec<char> = text::chars_of(html);
    text::string_of(&decode_entities(&drop_tags(&chars)))
}

/// Whether every tag of a text has its end.
pub open spec fn closes(s: Seq<char>) -> bool
    decreases s.len(),
{
    if s.len() == 0 {
        true
    } else if s[0] == '<' {
        proof {
            lemma_tag_end_bounds(s, 1);
        }
        tag_end(s, 1) < s.len() && closes(after_tag(s))
    } else {
        closes(s.skip(1))
    }
}

/// A tag that ends in the first text ends there in the joined one.
proof fn lemma_tag_end_joined(a: Seq<char>, b: Seq<char>, i: int)
    requires
        0 <= i <= a.len(),
        tag_end(a, i) < a.len(),
    ensures
        tag_end(a + b, i) == tag_end(a, i),
    decreases a.len() - i,
{
    if i < a.len() {
        assert((a + b)[i] == a[i]);
        if a[i] != '>' {
            lemma_tag_end_joined(a, b, i + 1);
        }
    }
}

/// Tags are dropped from two texts one by one, where the first closes.
proof fn lemma_tags_joined(a: Seq<char>, b: Seq<char>)
    requires
        closes(a),
    ensures
        without_tags(a + b) == without_tags(a) + without_tags(b),
    decreases a.len(),
{
    if a.len() == 0 {
        assert(a + b =~= b);
        assert(without_tags(a) + without_tags(b) =~= without_tags(b));
    } else {
        assert((a + b)[0] == a[0]);
        if a[0] == '<' {
            lemma_tag_end_bounds(a, 1);
            lemma_tag_end_bounds(a + b, 1);
            lemma_tag_end_joined(a, b, 1);
            assert(after_tag(a + b) =~= after_tag(a) + b);
            lemma_tags_joined(after_tag(a), b);
        } else {
            assert((a + b).skip(1) =~= a.skip(1) + b);
            lemma_tags_joined(a.skip(1), b);
            assert(seq![a[0]] + (without_tags(a.skip(1)) + without_tags(b)) =~= seq![a[0]]
                + without_tags(a.skip(1)) + without_tags(b));
        }
    }
}

/// Whether no entity can start near the end of a text and end behind it:
/// there is no ampersand among the last five characters.
pub open spec fn seals(s: Seq<char>) -> bool {
    forall|i: int| 0 <= i < s.len() && s.len() - 5 <= i ==> #[trigger] s[i] != '&'
}

/// A short prefix of a joined text is one of the first text.
proof fn lemma_prefix_joined(prefix: Seq<char>, a: Seq<char>, b: Seq<char>)
    requires
        prefix.len() <= a.len(),
    ensures
        prefix.is_prefix_of(a + b) == prefix.is_prefix_of(a),
{
    assert((a + b).subrange(0, prefix.len() as int) =~= a.subrange(0, prefix.len() as int));
}

/// Entities are replaced in two texts one by one, where none runs from the
/// first into the second.
proof fn lemma_entities_joined(a: Seq<char>, b: Seq<char>)
    requires
        seals(a),
    ensures
        decoded(a + b) == decoded(a) + decoded(b),
    decreases a.len(),
{
    if a.len() == 0 {
        assert(a + b =~= b);
        assert(decoded(a) + decoded(b) =~= decoded(b));
    } else {
        let whole = a + b;
        assert(whole[0] == a[0]);
        lemma_entity_bounds(a);
        lemma_entity_bounds(whole);
        if a[0] == '&' {
            assert(a.len() > 5);
            reveal_strlit("&amp;");
            reveal_strlit("&lt;");
            reveal_strlit("&gt;");
            reveal_strlit("&quot;");
            reveal_strlit("&#39;");
            reveal_strlit("&nbsp;");
            lemma_prefix_joined("&amp;"@, a, b);
            lemma_prefix_joined("&lt;"@, a, b);
            lemma_prefix_joined("&gt;"@, a, b);
            lemma_prefix_joined("&quot;"@, a, b);
            lemma_prefix_joined("&#39;"@, a, b);
            lemma_prefix_joined("&nbsp;"@, a, b);
        }
        assert(entity_at(whole) == entity_at(a));
        let (c, n) = match entity_at(a) {
            Some(e) => e,
            None => (a[0], 1int),
        };
        let rest = a.skip(n);
        assert(whole.skip(n) =~= rest + b);
        assert(seals(rest)) by {
            assert forall|i: int| 0 <= i < rest.len() && rest.len() - 5 <= i implies #[trigger]
                rest[i] != '&' by {
                assert(rest[i] == a[i + n]);
            }
        }
        lemma_entities_joined(rest, b);
        assert(seq![c] + (decoded(rest) + decoded(b)) =~= seq![c] + decoded(rest) + decoded(b));
    }
}

/// Stripping two texts in a row is stripping each, where the first closes
/// its tags and no entity runs from it into the second.
pub proof fn law_stripping_appends(a: Seq<char>, b: Seq<char>)
    requires
        closes(a),
        seals(without_tags(a)),
    ensures
        stripped(a + b) == stripped(a) + stripped(b),
{
    lemma_tags_joined(a, b);
    lemma_entities_joined(without_tags(a), without_tags(b));
}

/// Text without markup characters is left alone.
pub proof fn law_plain_text_survives(s: Seq<char>)
    requires
        !s.contains('<'),
        !s.contains('&'),
    ensures
        stripped(s) == s,
{
    lemma_no_tags(s);
    lemma_no_entities(s);
}

/// Without a `<` there are no tags.
proof fn lemma_no_tags(s: Seq<char>)
    requires
        !s.contains('<'),
    ensures
        without_tags(s) == s,
    decreases s.len(),
{
    if s.len() > 0 {
        assert(s.contains(s[0]));
        assert forall|c: char| s.skip(1).contains(c) implies s.contains(c) by {
            let k = choose|k: int| 0 <= k < s.skip(1).len() && s.skip(1)[k] == c;
            assert(s[k + 1] == c);
        }
        lemma_no_tags(s.skip(1));
        assert(seq![s[0]] + s.skip(1) =~= s);
    } else {
        assert(without_tags(s) =~= s);
    }
}

/// Without an ampersand there are no entities.
proof fn lemma_no_entities(s: Seq<char>)
    requires
        !s.contains('&'),
    ensures
        decoded(s) == s,
    decreases s.len(),
{
    if s.len() > 0 {
        lemma_entity_bounds(s);
        assert(s.contains(s[0]));
        assert forall|c: char| s.skip(1).contains(c) implies s.contains(c) by {
            let k = choose|k: int| 0 <= k < s.skip(1).len() && s.skip(1)[k] == c;
            assert(s[k + 1] == c);
        }
        lemma_no_entities(s.skip(1));
        assert(seq![s[0]] + s.skip(1) =~= s);
    } else {
        assert(decoded(s) =~= s);
    }
}

/// Whether a text holds neither a tag nor an entity.
pub open spec fn is_plain(s: Seq<char>) -> bool {
    !s.contains('<') && !s.contains('&')
}

/// Whether `entity` stands for the character `c`.
pub open spec fn stands_for(entity: Seq<char>, c: char) -> bool {
    ||| entity == "&amp;"@ && c == '&'
    ||| entity == "&lt;"@ && c == '<'
    ||| entity == "&gt;"@ && c == '>'
    ||| entity == "&quot;"@ && c == '"'
    ||| entity == "&#39;"@ && c == '\''
    ||| entity == "&nbsp;"@ && c == ' '
}

/// Without a `<` no tag is left open.
proof fn lemma_plain_closes(s: Seq<char>)
    requires
        !s.contains('<'),
    ensures
        closes(s),
    decreases s.len(),
{
    if s.len() > 0 {
        assert(s.contains(s[0]));
        assert forall|c: char| s.skip(1).contains(c) implies s.contains(c) by {
            let k = choose|k: int| 0 <= k < s.skip(1).len() && s.skip(1)[k] == c;
            assert(s[k + 1] == c);
        }
        lemma_plain_closes(s.skip(1));
    }
}

/// Text in front of the markup stays.
proof fn lemma_plain_front(front: Seq<char>, s: Seq<char>)
    requires
        is_plain(front),
    ensures
        stripped(front + s) == front + stripped(s),
{
    lemma_plain_closes(front);
    lemma_no_tags(front);
    lemma_tags_joined(front, s);
    assert(seals(front)) by {
        assert forall|i: int| 0 <= i < front.len() implies #[trigger] front[i] != '&' by {
            assert(front.contains(front[i]));
        }
    }
    lemma_entities_joined(front, without_tags(s));
    lemma_no_entities(front);
}

/// The first character behind the ampersand tells the entities apart.
pub proof fn lemma_entity_read(entity: Seq<char>, c: char, behind: Seq<char>)
    requires
        stands_for(entity, c),
    ensures
        entity_at(entity + behind) == Some((c, entity.len() as int)),
        entity.len() > 1,
        !entity.contains('<'),
{
    reveal_strlit("&amp;");
    reveal_strlit("&lt;");
    reveal_strlit("&gt;");
    reveal_strlit("&quot;");
    reveal_strlit("&#39;");
    reveal_strlit("&nbsp;");
    let s = entity + behind;
    assert(s.subrange(0, entity.len() as int) =~= entity);
    assert(s[1] == entity[1]);
    lemma_prefix_second("&amp;"@, s);
    lemma_prefix_second("&lt;"@, s);
    lemma_prefix_second("&gt;"@, s);
    lemma_prefix_second("&quot;"@, s);
    lemma_prefix_second("&#39;"@, s);
    lemma_prefix_second("&nbsp;"@, s);
}

proof fn lemma_prefix_second(prefix: Seq<char>, s: Seq<char>)
    requires
        prefix.len() > 1,
    ensures
        prefix.is_prefix_of(s) ==> s.len() > 1 && s[1] == prefix[1],
{
    if prefix.is_prefix_of(s) {
        assert(s.subrange(0, prefix.len() as int)[1] == s[1]);
    }
}

/// Each of the six entities becomes the character it stands for, once, and
/// what follows is stripped by itself.
pub proof fn law_entities_become_their_characters(
    html: &str,
    r: String,
    front: Seq<char>,
    entity: Seq<char>,
    c: char,
    behind: &str,
    rest: String,
)
    requires
        call_ensures(strip, (html,), r),
        call_ensures(strip, (behind,), rest),
        html@ == front + entity + behind@,
        is_plain(front),
        stands_for(entity, c),
    ensures
        r@ == front + seq![c] + rest@,
{
    let s = entity + behind@;
    assert(html@ =~= front + s);
    lemma_plain_front(front, s);
    lemma_entity_read(entity, c, without_tags(behind@));
    lemma_plain_closes(entity);
    lemma_no_tags(entity);
    lemma_tags_joined(entity, behind@);
    let bare = entity + without_tags(behind@);
    assert(bare.skip(entity.len() as int) =~= without_tags(behind@));
    assert(r@ =~= front + seq![c] + rest@);
}

/// A tag ends at its first `>`.
proof fn lemma_tag_ends_at(s: Seq<char>, k: int)
    requires
        1 <= k <= s.len(),
        k < s.len() ==> s[k] == '>',
        forall|j: int| 1 <= j < k ==> s[j] != '>',
    ensures
        tag_end(s, 1) == k,
{
    lemma_tag_end_bounds(s, 1);
}

/// A tag is dropped from its `<` to its first `>`, whatever it says, and
/// what follows is stripped by itself.
pub proof fn law_tags_are_dropped(
    html: &str,
    r: String,
    front: Seq<char>,
    tag: Seq<char>,
    behind: &str,
    rest: String,
)
    requires
        call_ensures(strip, (html,), r),
        call_ensures(strip, (behind,), rest),
        html@ == front + seq!['<'] + tag + seq!['>'] + behind@,
        is_plain(front),
        !tag.contains('>'),
    ensures
        r@ == front + rest@,
{
    let s = seq!['<'] + tag + seq!['>'] + behind@;
    assert(html@ =~= front + s);
    lemma_plain_front(front, s);
    assert forall|j: int| 1 <= j < tag.len() + 1 implies s[j] != '>' by {
        assert(s[j] == tag[j - 1]);
        assert(tag.contains(tag[j - 1]));
    }
    lemma_tag_ends_at(s, tag.len() as int + 1);
    assert(after_tag(s) =~= behind@);
}

/// A tag without an end takes the rest of the text with it.
pub proof fn law_open_tags_take_the_rest(
    html: &str,
    r: String,
    front: Seq<char>,
    tag: Seq<char>,
)
    requires
        call_ensures(strip, (html,), r),
        html@ == front + seq!['<'] + tag,
        is_plain(front),
        !tag.contains('>'),
    ensures
        r@ == front,
{
    let s = seq!['<'] + tag;
    assert(html@ =~= front + s);
    lemma_plain_front(front, s);
    assert forall|j: int| 1 <= j < tag.len() + 1 implies s[j] != '>' by {
        assert(s[j] == tag[j - 1]);
        assert(tag.contains(tag[j - 1]));
    }
    lemma_tag_ends_at(s, tag.len() as int + 1);
    assert(without_tags(after_tag(s)) =~= Seq::empty());
    assert(decoded(without_tags(s)) =~= Seq::empty());
    assert(front + stripped(s) =~= front);
}

/// An ampersand that starts none of the six entities stays.
pub proof fn law_other_ampersands_stay(
    html: &str,
    r: String,
    front: Seq<char>,
    behind: &str,
    rest: String,
)
    requires
        call_ensures(strip, (html,), r),
        call_ensures(strip, (behind,), rest),
        html@ == front + seq!['&'] + behind@,
        is_plain(front),
        behind@.len() > 0 ==> behind@[0] != 'a' && behind@[0] != 'l' && behind@[0] != 'g'
            && behind@[0] != 'q' && behind@[0] != '#' && behind@[0] != 'n' && behind@[0] != '<',
    ensures
        r@ == front + seq!['&'] + rest@,
{
    reveal_strlit("&amp;");
    reveal_strlit("&lt;");
    reveal_strlit("&gt;");
    reveal_strlit("&quot;");
    reveal_strlit("&#39;");
    reveal_strlit("&nbsp;");
    let s = seq!['&'] + behind@;
    assert(html@ =~= front + s);
    lemma_plain_front(front, s);
    assert(s.skip(1) =~= behind@);
    let bare = without_tags(s);
    assert(bare =~= s.subrange(0, 1) + without_tags(behind@));
    if behind@.len() > 0 {
        assert(bare[1] == behind@[0]);
    }
    lemma_prefix_second("&amp;"@, bare);
    lemma_prefix_second("&lt;"@, bare);
    lemma_prefix_second("&gt;"@, bare);
    lemma_prefix_second("&quot;"@, bare);
    lemma_prefix_second("&#39;"@, bare);
    lemma_prefix_second("&nbsp;"@, bare);
    assert(bare.skip(1) =~= without_tags(behind@));
    assert(r@ =~= front + seq!['&'] + rest@);
}

} // verus!
