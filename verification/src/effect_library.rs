//! The effect library panel: which rows it shows, which groups are
//! collapsed, and how that is stored.

use vstd::prelude::*;

use crate::text;
use crate::textset;
use crate::textset::TextSet;
use crate::words;

verus! {

/// The configuration key that the collapsed groups are stored under.
pub const COLLAPSED_CONFIG_KEY: &'static str = "EffectLibraryCollapsed";

/// An effect that can be added.
#[derive(PartialEq, Debug)]
pub struct EffectEntry {
    /// The type id.
    pub type_id: String,
    /// The name.
    pub name: String,
    /// The key of the group it is listed under; none for the built-in
    /// group.
    pub group: Option<String>,
}

impl EffectEntry {
    /// The key of the group; none for the built-in group.
    pub open spec fn group_text(&self) -> Option<Seq<char>> {
        match self.group {
            Some(g) => Some(g@),
            None => None,
        }
    }
}

/// The pieces of `s` between separators, with `current` in front of the
/// first one.
pub open spec fn pieces_from(s: Seq<char>, current: Seq<char>, separator: char) -> Seq<Seq<char>>
    decreases s.len(),
{
    if s.len() == 0 {
        seq![current]
    } else if s[0] == separator {
        seq![current] + pieces_from(s.skip(1), Seq::empty(), separator)
    } else {
        pieces_from(s.skip(1), current.push(s[0]), separator)
    }
}

/// The pieces of `s` between separators.
pub open spec fn pieces(s: Seq<char>, separator: char) -> Seq<Seq<char>> {
    pieces_from(s, Seq::empty(), separator)
}

/// The keys that a list of pieces spells: each piece without the white
/// space around it, and no empty key.
pub open spec fn keys_of(list: Seq<Seq<char>>) -> Set<Seq<char>> {
    Set::new(|k: Seq<char>| k.len() > 0 && exists|i: int| spells(list, i, k))
}

/// Whether piece `i` spells `key`.
pub open spec fn spells(list: Seq<Seq<char>>, i: int, key: Seq<char>) -> bool {
    0 <= i < list.len() && words::trimmed(list[i]) == key
}

/// The groups that a stored text names.
pub open spec fn parsed(raw: Seq<char>) -> Set<Seq<char>> {
    keys_of(pieces(raw, ','))
}

/// Whether a key survives being stored: it is not empty, has no comma and
/// no white space around it.
pub open spec fn is_key(key: Seq<char>) -> bool {
    key.len() > 0 && !key.contains(',') && words::is_trimmed(key)
}

/// The keys of a list are those of its first piece and those of the rest.
proof fn lemma_keys_split(first: Seq<char>, rest: Seq<Seq<char>>)
    ensures
        keys_of(seq![first] + rest) == keys_of(seq![first]).union(keys_of(rest)),
{
    let all = seq![first] + rest;
    assert forall|k: Seq<char>| keys_of(all).contains(k) == keys_of(seq![first]).union(
        keys_of(rest),
    ).contains(k) by {
        if keys_of(all).contains(k) {
            let i = choose|i: int| spells(all, i, k);
            if i == 0 {
                assert(spells(seq![first], 0, k));
            } else {
                assert(spells(rest, i - 1, k));
            }
        }
        if keys_of(seq![first]).contains(k) {
            let i = choose|i: int| spells(seq![first], i, k);
            assert(spells(all, 0, k));
        }
        if keys_of(rest).contains(k) {
            let i = choose|i: int| spells(rest, i, k);
            assert(spells(all, i + 1, k));
        }
    }
    assert(keys_of(all) =~= keys_of(seq![first]).union(keys_of(rest)));
}

/// Put the key that a piece spells into the set.
fn add_key(set: &mut TextSet, piece: &Vec<char>)
    ensures
        final(set)@ == old(set)@.union(keys_of(seq![piece@])),
{
    let key: Vec<char> = words::trim(piece);
    proof {
        assert forall|k: Seq<char>| keys_of(seq![piece@]).contains(k) == (k.len() > 0 && k
            == words::trimmed(piece@)) by {
            if k.len() > 0 && k == words::trimmed(piece@) {
                assert(spells(seq![piece@], 0, k));
            }
        }
    }
    if key.len() > 0 {
        set.insert(text::string_of(&key));
        assert(set@ =~= old(set)@.union(keys_of(seq![piece@])));
    } else {
        assert(set@ =~= old(set)@.union(keys_of(seq![piece@])));
    }
}

/// The groups that a stored text names: comma separated, blanks and
/// padding dropped.
pub fn parse_collapsed(raw: &str) -> (r: TextSet)
    ensures
        r@ == parsed(raw@),
{
    let chars: Vec<char> = text::chars_of(raw);
    let mut set: TextSet = TextSet::new();
    let mut current: Vec<char> = Vec::new();
    let mut i: usize = 0;
    assert(chars@.skip(0) =~= chars@);
    assert(set@.union(keys_of(pieces_from(chars@, current@, ','))) =~= parsed(raw@));
    while i < chars.len()
        invariant
            i <= chars@.len(),
            set@.union(keys_of(pieces_from(chars@.skip(i as int), current@, ','))) == parsed(raw@),
        decreases chars@.len() - i,
    {
        let ghost rest = chars@.skip(i as int);
        assert(rest.skip(1) =~= chars@.skip(i + 1));
        if chars[i] == ',' {
            let ghost tail = pieces_from(chars@.skip(i + 1), Seq::empty(), ',');
            let ghost before = set@;
            proof {
                lemma_keys_split(current@, tail);
            }
            add_key(&mut set, &current);
            assert(set@.union(keys_of(tail)) =~= before.union(
                keys_of(seq![current@]).union(keys_of(tail)),
            ));
            current = Vec::new();
        } else {
            current.push(chars[i]);
        }
        i = i + 1;
    }
    assert(chars@.skip(i as int) =~= Seq::empty());
    add_key(&mut set, &current);
    set
}

/// The stored form of a set of groups: sorted and comma separated.
pub fn format_collapsed(collapsed: &TextSet) -> (r: String)
    ensures
        r@ == text::joined(collapsed.texts(), ','),
        textset::ascending(collapsed.texts()),
{
    text::join_strings(&collapsed.to_vec(), ',')
}

/// Text without a separator is one piece.
proof fn lemma_one_piece(s: Seq<char>, current: Seq<char>, separator: char)
    requires
        !s.contains(separator),
    ensures
        pieces_from(s, current, separator) == seq![current + s],
    decreases s.len(),
{
    if s.len() == 0 {
        assert(current + s =~= current);
    } else {
        assert(s.contains(s[0]));
        assert forall|c: char| s.skip(1).contains(c) implies s.contains(c) by {
            let k = choose|k: int| 0 <= k < s.skip(1).len() && s.skip(1)[k] == c;
            assert(s[k + 1] == c);
        }
        lemma_one_piece(s.skip(1), current.push(s[0]), separator);
        assert(current.push(s[0]) + s.skip(1) =~= current + s);
    }
}

/// A separator and a text without one add one piece.
proof fn lemma_piece_behind(a: Seq<char>, b: Seq<char>, current: Seq<char>, separator: char)
    requires
        !b.contains(separator),
    ensures
        pieces_from(a.push(separator) + b, current, separator) == pieces_from(
            a,
            current,
            separator,
        ).push(b),
    decreases a.len(),
{
    let whole = a.push(separator) + b;
    if a.len() == 0 {
        assert(whole.skip(1) =~= b);
        lemma_one_piece(b, Seq::empty(), separator);
        assert(Seq::<char>::empty() + b =~= b);
        assert(seq![current] + seq![b] =~= seq![current].push(b));
    } else {
        assert(whole.skip(1) =~= a.skip(1).push(separator) + b);
        if a[0] == separator {
            lemma_piece_behind(a.skip(1), b, Seq::empty(), separator);
            assert(seq![current] + pieces_from(a.skip(1), Seq::empty(), separator).push(b) =~= (
            seq![current] + pieces_from(a.skip(1), Seq::empty(), separator)).push(b));
        } else {
            lemma_piece_behind(a.skip(1), b, current.push(a[0]), separator);
        }
    }
}

/// Joined texts come apart again where none has a separator.
pub proof fn lemma_joined_comes_apart(texts: Seq<Seq<char>>, separator: char)
    requires
        texts.len() > 0,
        forall|i: int| 0 <= i < texts.len() ==> !(#[trigger] texts[i]).contains(separator),
    ensures
        pieces(text::joined(texts, separator), separator) == texts,
    decreases texts.len(),
{
    if texts.len() == 1 {
        lemma_one_piece(texts[0], Seq::empty(), separator);
        assert(Seq::<char>::empty() + texts[0] =~= texts[0]);
        assert(texts =~= seq![texts[0]]);
    } else {
        let front = texts.drop_last();
        assert forall|i: int| 0 <= i < front.len() implies !(#[trigger] front[i]).contains(
            separator,
        ) by {
            assert(front[i] == texts[i]);
        }
        lemma_joined_comes_apart(front, separator);
        lemma_piece_behind(
            text::joined(front, separator),
            texts.last(),
            Seq::empty(),
            separator,
        );
        assert(front.push(texts.last()) =~= texts);
    }
}

/// No piece has a separator.
proof fn lemma_pieces_have_no_separator(s: Seq<char>, current: Seq<char>, separator: char)
    requires
        !current.contains(separator),
    ensures
        forall|i: int|
            0 <= i < pieces_from(s, current, separator).len() ==> !(#[trigger] pieces_from(
                s,
                current,
                separator,
            )[i]).contains(separator),
    decreases s.len(),
{
    if s.len() > 0 {
        if s[0] == separator {
            lemma_pieces_have_no_separator(s.skip(1), Seq::empty(), separator);
            let tail = pieces_from(s.skip(1), Seq::empty(), separator);
            let all = pieces_from(s, current, separator);
            assert(all == seq![current] + tail);
            assert forall|i: int| 0 <= i < all.len() implies !(#[trigger] all[i]).contains(
                separator,
            ) by {
                if i > 0 {
                    assert(all[i] == tail[i - 1]);
                }
            }
        } else {
            let longer = current.push(s[0]);
            assert(!longer.contains(separator)) by {
                if longer.contains(separator) {
                    let k = choose|k: int| 0 <= k < longer.len() && longer[k] == separator;
                    assert(current[k] == separator);
                }
            }
            lemma_pieces_have_no_separator(s.skip(1), longer, separator);
            assert(pieces_from(s, current, separator) == pieces_from(
                s.skip(1),
                longer,
                separator,
            ));
        }
    } else {
        assert(pieces_from(s, current, separator) == seq![current]);
    }
}

/// Storing a set of groups and reading it back gives the set, where every
/// key survives being stored.
pub proof fn law_collapsed_groups_round_trip(texts: Seq<Seq<char>>)
    requires
        forall|t: Seq<char>| #[trigger] texts.contains(t) ==> is_key(t),
    ensures
        parsed(text::joined(texts, ',')) == texts.to_set(),
{
    let list = pieces(text::joined(texts, ','), ',');
    if texts.len() == 0 {
        assert(words::trimmed(list[0]).len() == 0);
        assert(parsed(text::joined(texts, ',')) =~= texts.to_set());
    } else {
        assert forall|i: int| 0 <= i < texts.len() implies !(#[trigger] texts[i]).contains(
            ',',
        ) by {
            assert(texts.contains(texts[i]));
        }
        lemma_joined_comes_apart(texts, ',');
        assert forall|k: Seq<char>| keys_of(texts).contains(k) == texts.to_set().contains(k) by {
            if texts.contains(k) {
                let i = choose|i: int| 0 <= i < texts.len() && texts[i] == k;
                words::lemma_trimmed_stays(k);
                assert(spells(texts, i, k));
            }
            if keys_of(texts).contains(k) {
                let i = choose|i: int| spells(texts, i, k);
                assert(texts.contains(texts[i]));
                words::lemma_trimmed_stays(texts[i]);
            }
        }
        assert(keys_of(texts) =~= texts.to_set());
    }
}

/// Every key that is read survives being stored.
pub proof fn law_read_keys_survive(raw: Seq<char>, key: Seq<char>)
    requires
        parsed(raw).contains(key),
    ensures
        is_key(key),
{
    let list = pieces(raw, ',');
    let i = choose|i: int| spells(list, i, key);
    lemma_pieces_have_no_separator(raw, Seq::empty(), ',');
    words::lemma_trimmed(list[i]);
}

/// Whatever was stored, storing what is read from it and reading that gives
/// the same groups.
pub proof fn law_reading_settles(raw: Seq<char>, texts: Seq<Seq<char>>)
    requires
        texts.to_set() == parsed(raw),
    ensures
        parsed(text::joined(texts, ',')) == parsed(raw),
{
    assert forall|t: Seq<char>| #[trigger] texts.contains(t) implies is_key(t) by {
        assert(texts.to_set().contains(t));
        law_read_keys_survive(raw, t);
    }
    law_collapsed_groups_round_trip(texts);
}

/// Whether `raw` is the stored form of a set of groups: the keys in order,
/// with commas between them. The key of the built-in group is empty and
/// would not be read back, so one more comma in front stands for it.
pub open spec fn is_stored(collapsed: Set<Seq<char>>, raw: Seq<char>) -> bool {
    exists|texts: Seq<Seq<char>>|
        {
            &&& #[trigger] textset::ascending(texts)
            &&& texts.to_set() == collapsed.remove(Seq::empty())
            &&& raw == (if collapsed.contains(Seq::empty()) {
                seq![',']
            } else {
                Seq::empty()
            }) + text::joined(texts, ',')
        }
}

/// The groups that a stored text names: its keys, and the built-in group
/// where a comma stands in front.
pub open spec fn loaded(raw: Seq<char>) -> Set<Seq<char>> {
    if raw.len() > 0 && raw[0] == ',' {
        parsed(raw).insert(Seq::empty())
    } else {
        parsed(raw)
    }
}

/// The text to store for a set of groups, the built-in one among them.
pub fn stored_collapsed(collapsed: &TextSet) -> (r: String)
    ensures
        is_stored(collapsed@, r@),
{
    let mut named: TextSet = collapsed.clone();
    let key: String = String::new();
    assert(key@ =~= Seq::<char>::empty());
    let mut chars: Vec<char> = Vec::new();
    if named.remove(key.as_str()) {
        chars.push(',');
        assert(chars@ =~= seq![',']);
    } else {
        assert(chars@ =~= Seq::<char>::empty());
    }
    assert(named@ =~= collapsed@.remove(Seq::empty()));
    let keys: String = format_collapsed(&named);
    let mut rest: Vec<char> = text::chars_of(keys.as_str());
    chars.append(&mut rest);
    proof {
        assert(textset::ascending(named.texts()));
    }
    text::string_of(&chars)
}

/// The groups that a stored text names, the built-in one among them.
pub fn loaded_collapsed(raw: &str) -> (r: TextSet)
    ensures
        r@ == loaded(raw@),
{
    let mut named: TextSet = parse_collapsed(raw);
    let chars: Vec<char> = text::chars_of(raw);
    if chars.len() > 0 && chars[0] == ',' {
        let key: String = String::new();
        assert(key@ =~= Seq::<char>::empty());
        named.insert(key);
    }
    named
}

/// The collapsed groups survive a session: reading what was stored gives
/// them back, the built-in group too, where the other keys survive being
/// stored.
pub proof fn law_collapsed_groups_persist(collapsed: Set<Seq<char>>, raw: Seq<char>)
    requires
        is_stored(collapsed, raw),
        forall|k: Seq<char>| #[trigger] collapsed.contains(k) ==> k.len() == 0 || is_key(k),
    ensures
        loaded(raw) == collapsed,
{
    let none = Seq::<char>::empty();
    let texts = choose|texts: Seq<Seq<char>>|
        {
            &&& #[trigger] textset::ascending(texts)
            &&& texts.to_set() == collapsed.remove(Seq::empty())
            &&& raw == (if collapsed.contains(Seq::empty()) {
                seq![',']
            } else {
                Seq::empty()
            }) + text::joined(texts, ',')
        };
    let keys = text::joined(texts, ',');
    assert forall|k: Seq<char>| #[trigger] texts.contains(k) implies is_key(k) by {
        assert(texts.to_set().contains(k));
        if k.len() == 0 {
            assert(k =~= none);
        }
    }
    law_collapsed_groups_round_trip(texts);
    if collapsed.contains(none) {
        lemma_one_pad(keys, ',');
        assert(raw[0] == ',');
        assert(collapsed.remove(none).insert(none) =~= collapsed);
    } else {
        assert(raw =~= keys);
        assert(collapsed.remove(none) =~= collapsed);
        if keys.len() > 0 {
            lemma_joined_start(texts);
        }
    }
}

/// A list of keys does not start with a comma.
proof fn lemma_joined_start(texts: Seq<Seq<char>>)
    requires
        forall|k: Seq<char>| #[trigger] texts.contains(k) ==> is_key(k),
        text::joined(texts, ',').len() > 0,
    ensures
        text::joined(texts, ',')[0] != ',',
    decreases texts.len(),
{
    if texts.len() > 0 {
        assert(texts.contains(texts[0]));
        assert(texts.contains(texts.last()));
        if texts.len() > 1 {
            let fewer = texts.drop_last();
            assert forall|k: Seq<char>| #[trigger] fewer.contains(k) implies is_key(k) by {
                let i = choose|i: int| 0 <= i < fewer.len() && fewer[i] == k;
                assert(texts[i] == k);
                assert(texts.contains(k));
            }
            lemma_joined_start(fewer);
        }
    }
}

/// Pieces that start alike but for white space spell the same keys.
proof fn lemma_keys_alike(s: Seq<char>, a: Seq<char>, b: Seq<char>)
    requires
        forall|e: Seq<char>| #[trigger] words::trimmed(a + e) == words::trimmed(b + e),
    ensures
        keys_of(pieces_from(s, a, ',')) == keys_of(pieces_from(s, b, ',')),
    decreases s.len(),
{
    assert(words::trimmed(a + Seq::empty()) == words::trimmed(b + Seq::empty()));
    assert(a + Seq::<char>::empty() =~= a);
    assert(b + Seq::<char>::empty() =~= b);
    assert forall|k: Seq<char>| keys_of(seq![a]).contains(k) == keys_of(seq![b]).contains(k) by {
        if keys_of(seq![a]).contains(k) {
            let i = choose|i: int| spells(seq![a], i, k);
            assert(spells(seq![b], 0, k));
        }
        if keys_of(seq![b]).contains(k) {
            let i = choose|i: int| spells(seq![b], i, k);
            assert(spells(seq![a], 0, k));
        }
    }
    assert(keys_of(seq![a]) =~= keys_of(seq![b]));
    if s.len() > 0 {
        if s[0] == ',' {
            let rest = pieces_from(s.skip(1), Seq::empty(), ',');
            lemma_keys_split(a, rest);
            lemma_keys_split(b, rest);
        } else {
            assert forall|e: Seq<char>| #[trigger] words::trimmed(a.push(s[0]) + e)
                == words::trimmed(b.push(s[0]) + e) by {
                assert(a.push(s[0]) + e =~= a + (seq![s[0]] + e));
                assert(b.push(s[0]) + e =~= b + (seq![s[0]] + e));
                assert(words::trimmed(a + (seq![s[0]] + e)) == words::trimmed(
                    b + (seq![s[0]] + e),
                ));
            }
            lemma_keys_alike(s.skip(1), a.push(s[0]), b.push(s[0]));
        }
    }
}

/// White space behind the last piece spells nothing.
proof fn lemma_keys_padded(s: Seq<char>, current: Seq<char>, c: char)
    requires
        words::is_white(c),
    ensures
        keys_of(pieces_from(s.push(c), current, ',')) == keys_of(pieces_from(s, current, ',')),
    decreases s.len(),
{
    let longer = s.push(c);
    if s.len() == 0 {
        assert(longer.skip(1) =~= Seq::empty());
        assert(c != ',');
        assert(pieces_from(longer, current, ',') == seq![current.push(c)]) by {
            reveal_with_fuel(pieces_from, 2);
        }
        words::lemma_trimmed_padded(current, c);
        let x = seq![current.push(c)];
        let y = seq![current];
        assert forall|k: Seq<char>| keys_of(x).contains(k) == keys_of(y).contains(k) by {
            if keys_of(x).contains(k) {
                let i = choose|i: int| spells(x, i, k);
                assert(spells(y, 0, k));
            }
            if keys_of(y).contains(k) {
                let i = choose|i: int| spells(y, i, k);
                assert(spells(x, 0, k));
            }
        }
        assert(keys_of(x) =~= keys_of(y));
    } else {
        assert(longer.skip(1) =~= s.skip(1).push(c));
        if s[0] == ',' {
            lemma_keys_padded(s.skip(1), Seq::empty(), c);
            lemma_keys_split(current, pieces_from(s.skip(1), Seq::empty(), ','));
            lemma_keys_split(current, pieces_from(s.skip(1).push(c), Seq::empty(), ','));
        } else {
            lemma_keys_padded(s.skip(1), current.push(s[0]), c);
        }
    }
}

/// A blank or a comma in front of a stored text, or behind it, changes
/// nothing.
proof fn lemma_one_pad(raw: Seq<char>, c: char)
    requires
        words::is_white(c) || c == ',',
    ensures
        parsed(seq![c] + raw) == parsed(raw),
        parsed(raw.push(c)) == parsed(raw),
{
    let none = Seq::<char>::empty();
    let front = seq![c] + raw;
    assert(front.skip(1) =~= raw);
    assert(words::trimmed(none) =~= none);
    assert(keys_of(seq![none]) =~= Set::empty());
    if c == ',' {
        lemma_keys_split(none, pieces(raw, ','));
        assert(keys_of(seq![none]).union(parsed(raw)) =~= parsed(raw));
        lemma_piece_behind(raw, none, none, ',');
        assert(raw.push(',') + none =~= raw.push(','));
        let list = pieces(raw, ',');
        assert forall|k: Seq<char>| keys_of(list.push(none)).contains(k) == keys_of(list).contains(
            k,
        ) by {
            if keys_of(list.push(none)).contains(k) {
                let i = choose|i: int| spells(list.push(none), i, k);
                assert(spells(list, i, k));
            }
            if keys_of(list).contains(k) {
                let i = choose|i: int| spells(list, i, k);
                assert(spells(list.push(none), i, k));
            }
        }
        assert(keys_of(list.push(none)) =~= keys_of(list));
    } else {
        assert forall|e: Seq<char>| #[trigger] words::trimmed(none.push(c) + e) == words::trimmed(
            none + e,
        ) by {
            assert((none.push(c) + e).skip(1) =~= e);
            assert(none + e =~= e);
        }
        lemma_keys_alike(raw, none.push(c), none);
        lemma_keys_padded(raw, none, c);
    }
}

/// Blanks and commas around a stored text change nothing.
pub proof fn law_padding_and_blank_items_drop(before: Seq<char>, raw: Seq<char>, after: Seq<char>)
    requires
        forall|i: int|
            0 <= i < before.len() ==> words::is_white(#[trigger] before[i]) || before[i] == ',',
        forall|i: int|
            0 <= i < after.len() ==> words::is_white(#[trigger] after[i]) || after[i] == ',',
    ensures
        parsed(before + raw + after) == parsed(raw),
    decreases before.len() + after.len(),
{
    if before.len() > 0 {
        let rest = before.skip(1);
        assert(before + raw + after =~= seq![before[0]] + (rest + raw + after));
        lemma_one_pad(rest + raw + after, before[0]);
        law_padding_and_blank_items_drop(rest, raw, after);
    } else if after.len() > 0 {
        let rest = after.drop_last();
        assert(before + raw + after =~= (before + raw + rest).push(after.last()));
        lemma_one_pad(before + raw + rest, after.last());
        law_padding_and_blank_items_drop(before, raw, rest);
    } else {
        assert(before + raw + after =~= raw);
    }
}

/// The set with the state of one group turned over.
pub open spec fn toggled(collapsed: Set<Seq<char>>, key: Seq<char>) -> Set<Seq<char>> {
    if collapsed.contains(key) {
        collapsed.remove(key)
    } else {
        collapsed.insert(key)
    }
}

/// Turn the state of one group over; whether it is collapsed now.
pub fn toggle_collapsed(collapsed: &mut TextSet, group_key: &str) -> (r: bool)
    ensures
        r == !old(collapsed)@.contains(group_key@),
        final(collapsed)@ == toggled(old(collapsed)@, group_key@),
{
    if collapsed.remove(group_key) {
        false
    } else {
        assert(old(collapsed)@.remove(group_key@) =~= old(collapsed)@);
        collapsed.insert(group_key.to_string());
        true
    }
}

/// Turning a group over twice changes nothing, and turning one group over
/// leaves the others alone.
pub proof fn law_toggling_twice_restores(
    collapsed: Set<Seq<char>>,
    key: Seq<char>,
    other: Seq<char>,
)
    ensures
        toggled(toggled(collapsed, key), key) == collapsed,
        other != key ==> toggled(collapsed, key).contains(other) == collapsed.contains(other),
{
    assert(toggled(toggled(collapsed, key), key) =~= collapsed);
}

/// Whether an entry with these lowercase names matches a query.
pub open spec fn found(name: Seq<char>, type_id: Seq<char>, query: Seq<char>) -> bool {
    query.len() == 0 || words::holds(name, query) || words::holds(type_id, query)
}

/// Whether an entry with these lowercase names matches a query.
pub fn matches_names(name: &Vec<char>, type_id: &Vec<char>, query: &Vec<char>) -> (r: bool)
    ensures
        r == found(name@, type_id@, query@),
{
    query.len() == 0 || words::contains(name, query) || words::contains(type_id, query)
}

/// Whether an entry matches a query that was already trimmed and turned to
/// lowercase.
pub fn matches_query(entry: &EffectEntry, query: &str) -> (r: bool)
    ensures
        r == found(words::lowercase(entry.name@), words::lowercase(entry.type_id@), query@),
{
    matches_names(
        &words::to_lowercase(entry.name.as_str()),
        &words::to_lowercase(entry.type_id.as_str()),
        &text::chars_of(query),
    )
}

/// The query of a search text: trimmed and in lowercase.
pub fn query_of(search: &str) -> (r: String)
    ensures
        r@ == words::lowercase(words::trimmed(search@)),
{
    let chars: Vec<char> = text::chars_of(search);
    let trimmed: String = text::string_of(&words::trim(&chars));
    text::string_of(&words::to_lowercase(trimmed.as_str()))
}

/// The key that a group is collapsed under: its own, and the empty one for
/// the built-in group.
pub open spec fn group_key(group: Option<Seq<char>>) -> Seq<char> {
    match group {
        Some(g) => g,
        None => Seq::empty(),
    }
}

/// Whether an entry is collapsed away. A search looks through every group.
pub open spec fn is_hidden(
    entry: &EffectEntry,
    searching: bool,
    collapsed: Set<Seq<char>>,
) -> bool {
    !searching && collapsed.contains(group_key(entry.group_text()))
}

/// Whether an entry is collapsed away.
pub fn hidden_by_collapse(entry: &EffectEntry, query: &str, collapsed: &TextSet) -> (r: bool)
    ensures
        r == is_hidden(entry, query@.len() > 0, collapsed@),
{
    if !query.is_empty() {
        return false;
    }
    match &entry.group {
        Some(group) => collapsed.contains(group.as_str()),
        None => {
            let key: String = String::new();
            collapsed.contains(key.as_str())
        },
    }
}

/// One row of the panel.
#[derive(PartialEq, Debug)]
pub enum LibraryRow {
    /// The header of a group.
    Header {
        /// The key of the group; empty for the built-in group.
        key: String,
        /// Whether this is the built-in group.
        built_in: bool,
        /// Whether the group is marked as collapsed.
        collapsed: bool,
    },
    /// An entry, by its position.
    Entry(usize),
}

/// What a [`LibraryRow`] shows.
#[verifier::ext_equal]
pub enum RowModel {
    Header { key: Seq<char>, built_in: bool, collapsed: bool },
    Entry(int),
}

impl LibraryRow {
    /// What this row shows.
    pub open spec fn view(&self) -> RowModel {
        match self {
            LibraryRow::Header { key, built_in, collapsed } => RowModel::Header {
                key: key@,
                built_in: *built_in,
                collapsed: *collapsed,
            },
            LibraryRow::Entry(i) => RowModel::Entry(*i as int),
        }
    }
}

/// What a list of rows shows.
pub open spec fn rows_model(rows: Seq<LibraryRow>) -> Seq<RowModel> {
    rows.map_values(|r: LibraryRow| r@)
}

/// The header of a group.
pub open spec fn header(group: Option<Seq<char>>, collapsed: Set<Seq<char>>) -> RowModel {
    let key = group_key(group);
    RowModel::Header { key, built_in: group is None, collapsed: collapsed.contains(key) }
}

/// The rows of the entries from `i` on: the matching ones, each group under
/// its header, a collapsed group without its entries. `last` is the group
/// of the matching entry before.
pub open spec fn rows_from(
    entries: Seq<EffectEntry>,
    matched: Seq<bool>,
    searching: bool,
    collapsed: Set<Seq<char>>,
    i: int,
    last: Option<Option<Seq<char>>>,
) -> Seq<RowModel>
    decreases entries.len() - i,
{
    if i < 0 || i >= entries.len() {
        Seq::empty()
    } else if !matched[i] {
        rows_from(entries, matched, searching, collapsed, i + 1, last)
    } else {
        let group = entries[i].group_text();
        let heading = if last == Some(group) {
            Seq::empty()
        } else {
            seq![header(group, collapsed)]
        };
        let own = if is_hidden(&entries[i], searching, collapsed) {
            Seq::empty()
        } else {
            seq![RowModel::Entry(i)]
        };
        heading + own + rows_from(entries, matched, searching, collapsed, i + 1, Some(group))
    }
}

/// Whether two entries are in the same group.
fn same_group(a: &EffectEntry, b: &EffectEntry) -> (r: bool)
    ensures
        r == (a.group_text() == b.group_text()),
{
    match (&a.group, &b.group) {
        (Some(x), Some(y)) => text::same(x.as_str(), y.as_str()),
        (None, None) => true,
        _ => false,
    }
}

/// The header of an entry's group.
fn header_row(entry: &EffectEntry, collapsed: &TextSet) -> (r: LibraryRow)
    ensures
        r@ == header(entry.group_text(), collapsed@),
{
    match &entry.group {
        Some(group) => LibraryRow::Header {
            key: group.clone(),
            built_in: false,
            collapsed: collapsed.contains(group.as_str()),
        },
        None => {
            let key: String = String::new();
            let marked: bool = collapsed.contains(key.as_str());
            LibraryRow::Header { key, built_in: true, collapsed: marked }
        },
    }
}

/// The group of the entry at a position.
pub open spec fn group_at(entries: Seq<EffectEntry>, at: Option<usize>) -> Option<
    Option<Seq<char>>,
> {
    match at {
        Some(i) => Some(entries[i as int].group_text()),
        None => None,
    }
}

/// The rows of the panel for the entries that match.
pub fn arrange_rows(
    entries: &Vec<EffectEntry>,
    matched: &Vec<bool>,
    searching: bool,
    collapsed: &TextSet,
) -> (r: Vec<LibraryRow>)
    requires
        matched@.len() == entries@.len(),
    ensures
        rows_model(r@) == rows_from(entries@, matched@, searching, collapsed@, 0, None),
{
    let mut rows: Vec<LibraryRow> = Vec::new();
    let mut last: Option<usize> = None;
    let mut i: usize = 0;
    let ghost whole = rows_from(entries@, matched@, searching, collapsed@, 0, None);
    assert(rows_model(rows@) =~= Seq::empty());
    assert(Seq::<RowModel>::empty() + whole =~= whole);
    while i < entries.len()
        invariant
            i <= entries@.len(),
            matched@.len() == entries@.len(),
            last matches Some(at) ==> at < entries@.len(),
            rows_model(rows@) + rows_from(
                entries@,
                matched@,
                searching,
                collapsed@,
                i as int,
                group_at(entries@, last),
            ) == whole,
        decreases entries@.len() - i,
    {
        if matched[i] {
            let ghost before = rows_model(rows@);
            let ghost group = entries@[i as int].group_text();
            let ghost tail = rows_from(
                entries@,
                matched@,
                searching,
                collapsed@,
                i + 1,
                Some(group),
            );
            let known: bool = match last {
                Some(at) => same_group(&entries[at], &entries[i]),
                None => false,
            };
            let ghost heading = if known {
                Seq::empty()
            } else {
                seq![header(group, collapsed@)]
            };
            if !known {
                rows.push(header_row(&entries[i], collapsed));
            }
            assert(rows_model(rows@) =~= before + heading);
            let hidden: bool = if searching {
                false
            } else {
                hidden_by_collapse(&entries[i], "", collapsed)
            };
            let ghost own = if hidden {
                Seq::empty()
            } else {
                seq![RowModel::Entry(i as int)]
            };
            proof {
                reveal_strlit("");
                assert(hidden == is_hidden(&entries@[i as int], searching, collapsed@));
            }
            if !hidden {
                rows.push(LibraryRow::Entry(i));
            }
            assert(rows_model(rows@) =~= before + heading + own);
            assert(before + (heading + own + tail) =~= before + heading + own + tail);
            last = Some(i);
        }
        i = i + 1;
    }
    assert(rows_model(rows@) + Seq::<RowModel>::empty() =~= rows_model(rows@));
    rows
}

/// Which entries match a query.
fn match_entries(entries: &Vec<EffectEntry>, query: &str) -> (r: Vec<bool>)
    ensures
        r@ == matches_of(entries@, query@),
{
    let mut out: Vec<bool> = Vec::new();
    let mut i: usize = 0;
    while i < entries.len()
        invariant
            i <= entries@.len(),
            out@ =~= matches_of(entries@, query@).subrange(0, i as int),
        decreases entries@.len() - i,
    {
        out.push(matches_query(&entries[i], query));
        i = i + 1;
    }
    assert(out@ =~= matches_of(entries@, query@));
    out
}

/// Which entries match a query.
pub open spec fn matches_of(entries: Seq<EffectEntry>, query: Seq<char>) -> Seq<bool> {
    entries.map_values(
        |e: EffectEntry|
            found(words::lowercase(e.name@), words::lowercase(e.type_id@), query),
    )
}

/// The rows of the panel for a search text.
pub fn library_rows(entries: &Vec<EffectEntry>, search: &str, collapsed: &TextSet) -> (r: Vec<
    LibraryRow,
>)
    ensures
        ({
            let query = words::lowercase(words::trimmed(search@));
            rows_model(r@) == rows_from(
                entries@,
                matches_of(entries@, query),
                query.len() > 0,
                collapsed@,
                0,
                None,
            )
        }),
{
    let query: String = query_of(search);
    let matched: Vec<bool> = match_entries(entries, query.as_str());
    let searching: bool = !query.as_str().is_empty();
    arrange_rows(entries, &matched, searching, collapsed)
}

/// An entry has a row exactly when it matches and is not collapsed away:
/// with nothing collapsed every matching entry has one, and a search finds
/// the entries of collapsed groups too.
pub proof fn law_entries_have_rows(
    entries: Seq<EffectEntry>,
    matched: Seq<bool>,
    searching: bool,
    collapsed: Set<Seq<char>>,
    from: int,
    last: Option<Option<Seq<char>>>,
    entry: int,
)
    requires
        matched.len() == entries.len(),
        0 <= from <= entries.len(),
    ensures
        rows_from(entries, matched, searching, collapsed, from, last).contains(
            RowModel::Entry(entry),
        ) == (from <= entry < entries.len() && matched[entry] && !is_hidden(
            &entries[entry],
            searching,
            collapsed,
        )),
    decreases entries.len() - from,
{
    let rows = rows_from(entries, matched, searching, collapsed, from, last);
    if from < entries.len() {
        if matched[from] {
            let group = entries[from].group_text();
            let heading = if last == Some(group) {
                Seq::empty()
            } else {
                seq![header(group, collapsed)]
            };
            let own = if is_hidden(&entries[from], searching, collapsed) {
                Seq::empty()
            } else {
                seq![RowModel::Entry(from)]
            };
            let tail = rows_from(entries, matched, searching, collapsed, from + 1, Some(group));
            law_entries_have_rows(
                entries,
                matched,
                searching,
                collapsed,
                from + 1,
                Some(group),
                entry,
            );
            lemma_three_parts(heading, own, tail, RowModel::Entry(entry));
            assert(!heading.contains(RowModel::Entry(entry)));
            assert(own.contains(RowModel::Entry(entry)) == (entry == from && !is_hidden(
                &entries[from],
                searching,
                collapsed,
            ))) by {
                if own.len() > 0 {
                    assert(own[0] == RowModel::Entry(from));
                }
            }
        } else {
            law_entries_have_rows(entries, matched, searching, collapsed, from + 1, last, entry);
        }
    }
}

/// A row of three joined lists is a row of one of them.
proof fn lemma_three_parts(a: Seq<RowModel>, b: Seq<RowModel>, c: Seq<RowModel>, row: RowModel)
    ensures
        (a + b + c).contains(row) == (a.contains(row) || b.contains(row) || c.contains(row)),
{
    let all = a + b + c;
    if all.contains(row) {
        let k = choose|k: int| 0 <= k < all.len() && all[k] == row;
        if k < a.len() {
            assert(a[k] == row);
        } else if k < a.len() + b.len() {
            assert(b[k - a.len()] == row);
        } else {
            assert(c[k - a.len() - b.len()] == row);
        }
    }
    if a.contains(row) {
        let k = choose|k: int| 0 <= k < a.len() && a[k] == row;
        assert(all[k] == row);
    }
    if b.contains(row) {
        let k = choose|k: int| 0 <= k < b.len() && b[k] == row;
        assert(all[k + a.len()] == row);
    }
    if c.contains(row) {
        let k = choose|k: int| 0 <= k < c.len() && c[k] == row;
        assert(all[k + a.len() + b.len()] == row);
    }
}

/// The group of every matching entry has a header, collapsed or not.
pub proof fn law_groups_keep_their_headers(
    entries: Seq<EffectEntry>,
    matched: Seq<bool>,
    searching: bool,
    collapsed: Set<Seq<char>>,
    from: int,
    last: Option<Option<Seq<char>>>,
    entry: int,
)
    requires
        matched.len() == entries.len(),
        0 <= from <= entry < entries.len(),
        matched[entry],
    ensures
        last == Some(entries[entry].group_text()) || rows_from(
            entries,
            matched,
            searching,
            collapsed,
            from,
            last,
        ).contains(header(entries[entry].group_text(), collapsed)),
    decreases entries.len() - from,
{
    let row = header(entries[entry].group_text(), collapsed);
    if matched[from] {
        let group = entries[from].group_text();
        let heading = if last == Some(group) {
            Seq::empty()
        } else {
            seq![header(group, collapsed)]
        };
        let own = if is_hidden(&entries[from], searching, collapsed) {
            Seq::empty()
        } else {
            seq![RowModel::Entry(from)]
        };
        let tail = rows_from(entries, matched, searching, collapsed, from + 1, Some(group));
        lemma_three_parts(heading, own, tail, row);
        if group == entries[entry].group_text() {
            if last != Some(group) {
                assert(heading[0] == row);
                assert(heading.contains(row));
            }
        } else {
            law_groups_keep_their_headers(
                entries,
                matched,
                searching,
                collapsed,
                from + 1,
                Some(group),
                entry,
            );
        }
    } else {
        law_groups_keep_their_headers(
            entries,
            matched,
            searching,
            collapsed,
            from + 1,
            last,
            entry,
        );
    }
}

/// Whether an entry's group is marked as collapsed: by its key, and by the
/// empty key for the built-in group.
pub open spec fn in_collapsed_group(entry: &EffectEntry, collapsed: Set<Seq<char>>) -> bool {
    match entry.group {
        Some(key) => collapsed.contains(key@),
        None => collapsed.contains(Seq::empty()),
    }
}

/// Whether `row` is the header of an entry's group.
pub open spec fn heads(row: LibraryRow, entry: &EffectEntry, collapsed: Set<Seq<char>>) -> bool {
    row matches LibraryRow::Header { key, built_in, collapsed: marked } && {
        &&& entry.group matches Some(group) ==> key@ == group@ && !built_in
        &&& entry.group is None ==> key@.len() == 0 && built_in
        &&& marked == in_collapsed_group(entry, collapsed)
    }
}

/// The panel has a row for an entry exactly where the entry matches, and
/// either a search runs or its group is not collapsed.
pub proof fn law_the_panel_shows_what_matches(
    entries: &Vec<EffectEntry>,
    matched: &Vec<bool>,
    searching: bool,
    collapsed: &TextSet,
    rows: Vec<LibraryRow>,
    entry: usize,
)
    requires
        matched@.len() == entries@.len(),
        call_ensures(arrange_rows, (entries, matched, searching, collapsed), rows),
    ensures
        (exists|k: int| 0 <= k < rows@.len() && #[trigger] rows@[k] == LibraryRow::Entry(entry))
            <==> entry < entries@.len() && matched@[entry as int] && (searching
            || !in_collapsed_group(&entries@[entry as int], collapsed@)),
{
    law_entries_have_rows(
        entries@,
        matched@,
        searching,
        collapsed@,
        0,
        None,
        entry as int,
    );
    let shown = rows_model(rows@);
    let row = RowModel::Entry(entry as int);
    if shown.contains(row) {
        let k = choose|k: int| 0 <= k < shown.len() && shown[k] == row;
        assert(rows@[k]@ == row);
        assert(rows@[k] == LibraryRow::Entry(entry));
    }
    if exists|k: int| 0 <= k < rows@.len() && #[trigger] rows@[k] == LibraryRow::Entry(entry) {
        let k = choose|k: int|
            0 <= k < rows@.len() && #[trigger] rows@[k] == LibraryRow::Entry(entry);
        assert(shown[k] == row);
    }
}

/// Whether the row `k` stands under the header of its entry's group: that
/// header is the last one before it, or was the last one before the rows.
spec fn is_headed(
    entries: Seq<EffectEntry>,
    collapsed: Set<Seq<char>>,
    rows: Seq<RowModel>,
    last: Option<Option<Seq<char>>>,
    k: int,
    h: int,
) -> bool {
    &&& rows[k] matches RowModel::Entry(e) && {
        let group = entries[e].group_text();
        if h < 0 {
            last == Some(group)
        } else {
            h < k && rows[h] == header(group, collapsed)
        }
    }
    &&& forall|m: int| h < m < k && 0 <= m ==> #[trigger] rows[m] is Entry
}

/// The rows of the entries from `from` on, entry by entry.
proof fn lemma_rows_in_order(
    entries: Seq<EffectEntry>,
    matched: Seq<bool>,
    searching: bool,
    collapsed: Set<Seq<char>>,
    from: int,
    last: Option<Option<Seq<char>>>,
    k: int,
) -> (h: int)
    requires
        matched.len() == entries.len(),
        0 <= from <= entries.len(),
    ensures
        ({
            let rows = rows_from(entries, matched, searching, collapsed, from, last);
            &&& 0 <= k < rows.len() && rows[k] is Entry ==> is_headed(
                entries,
                collapsed,
                rows,
                last,
                k,
                h,
            )
            &&& forall|i: int, j: int|
                #![trigger rows[i], rows[j]]
                0 <= i < j < rows.len() && rows[i] is Entry && rows[j] is Entry ==> rows[i]->Entry_0
                    < rows[j]->Entry_0
            &&& forall|i: int|
                0 <= i < rows.len() && #[trigger] rows[i] is Entry ==> from <= rows[i]->Entry_0
                    < entries.len()
            &&& forall|i: int|
                0 <= i < rows.len() && #[trigger] rows[i] is Header ==> exists|e: int|
                    from <= e < entries.len() && matched[e] && rows[i] == #[trigger] header(
                        entries[e].group_text(),
                        collapsed,
                    )
        }),
    decreases entries.len() - from,
{
    let rows = rows_from(entries, matched, searching, collapsed, from, last);
    if from >= entries.len() {
        -1
    } else if !matched[from] {
        lemma_rows_in_order(entries, matched, searching, collapsed, from + 1, last, k)
    } else {
        let group = entries[from].group_text();
        let heading = if last == Some(group) {
            Seq::empty()
        } else {
            seq![header(group, collapsed)]
        };
        let own = if is_hidden(&entries[from], searching, collapsed) {
            Seq::empty()
        } else {
            seq![RowModel::Entry(from)]
        };
        let tail = rows_from(entries, matched, searching, collapsed, from + 1, Some(group));
        let n = (heading + own).len() as int;
        let h = lemma_rows_in_order(
            entries,
            matched,
            searching,
            collapsed,
            from + 1,
            Some(group),
            k - n,
        );
        assert(rows =~= heading + own + tail);
        assert forall|i: int| n <= i < rows.len() implies #[trigger] rows[i] == tail[i - n] by {}
        assert forall|i: int|
            0 <= i < rows.len() && #[trigger] rows[i] is Header implies exists|e: int|
            from <= e < entries.len() && matched[e] && rows[i] == #[trigger] header(
                entries[e].group_text(),
                collapsed,
            ) by {
            if i < n {
                assert(rows[i] == header(entries[from].group_text(), collapsed));
            } else {
                assert(tail[i - n] is Header);
            }
        }
        assert forall|i: int| 0 <= i < rows.len() && #[trigger] rows[i] is Entry implies from
            <= rows[i]->Entry_0 < entries.len() by {
            if i >= n {
                assert(tail[i - n] is Entry);
            }
        }
        assert forall|i: int, j: int|
            #![trigger rows[i], rows[j]]
            0 <= i < j < rows.len() && rows[i] is Entry && rows[j] is Entry implies rows[i]->Entry_0
            < rows[j]->Entry_0 by {
            if j >= n {
                assert(tail[j - n] is Entry);
                if i >= n {
                    assert(tail[i - n] is Entry);
                }
            }
        }
        let place = if k < n {
            if last == Some(group) {
                -1
            } else {
                0
            }
        } else if h >= 0 {
            h + n
        } else if last == Some(group) {
            -1
        } else {
            0
        };
        if 0 <= k < rows.len() && rows[k] is Entry {
            if k >= n {
                assert(tail[k - n] is Entry);
                assert(is_headed(entries, collapsed, tail, Some(group), k - n, h));
                assert forall|m: int| place < m < k && 0 <= m implies #[trigger] rows[m] is Entry by {
                    if m >= n {
                        assert(tail[m - n] is Entry);
                    }
                }
            }
            assert(is_headed(entries, collapsed, rows, last, k, place));
        }
        place
    }
}

/// The rows of the panel keep the order of the entries. Every entry's row
/// stands under the header of its group, with nothing but entries between,
/// and every header is that of a matching entry.
pub proof fn law_rows_stand_under_their_groups(
    entries: &Vec<EffectEntry>,
    matched: &Vec<bool>,
    searching: bool,
    collapsed: &TextSet,
    rows: Vec<LibraryRow>,
    i: int,
    j: int,
    a: usize,
    b: usize,
)
    requires
        matched@.len() == entries@.len(),
        call_ensures(arrange_rows, (entries, matched, searching, collapsed), rows),
        0 <= i < rows@.len(),
        0 <= j < rows@.len(),
    ensures
        i < j && rows@[i] == LibraryRow::Entry(a) && rows@[j] == LibraryRow::Entry(b) ==> a < b,
        rows@[i] == LibraryRow::Entry(a) ==> a < entries@.len() && exists|h: int|
            0 <= h < i && heads(#[trigger] rows@[h], &entries@[a as int], collapsed@) && forall|
                m: int,
            |
                h < m < i ==> #[trigger] rows@[m] is Entry,
        rows@[i] is Header ==> exists|e: int|
            0 <= e < entries@.len() && matched@[e] && heads(
                rows@[i],
                #[trigger] &entries@[e],
                collapsed@,
            ),
{
    let shown = rows_model(rows@);
    assert forall|m: int| 0 <= m < rows@.len() implies #[trigger] shown[m] == rows@[m]@ by {}
    let h = lemma_rows_in_order(entries@, matched@, searching, collapsed@, 0, None, i);
    assert(shown[i] == rows@[i]@ && shown[j] == rows@[j]@);
    if rows@[i] is Header {
        assert(shown[i] is Header);
        let e = choose|e: int|
            0 <= e < entries@.len() && matched@[e] && shown[i] == #[trigger] header(
                entries@[e].group_text(),
                collapsed@,
            );
        assert(heads(rows@[i], &entries@[e], collapsed@));
    }
    if rows@[i] == LibraryRow::Entry(a) {
        assert(shown[i] is Entry);
        assert(is_headed(entries@, collapsed@, shown, None, i, h));
        assert(shown[h] == rows@[h]@);
        assert(heads(rows@[h], &entries@[a as int], collapsed@));
        assert forall|m: int| h < m < i implies #[trigger] rows@[m] is Entry by {
            assert(shown[m] is Entry);
        }
    }
}

/// A query finds an entry by a part of its name or of its type id, whatever
/// the case of these, and the empty query finds every entry.
pub proof fn law_queries_find_parts_of_names(
    entry: &EffectEntry,
    query: &str,
    r: bool,
    name: &str,
    type_id: &str,
    lower_name: Vec<char>,
    lower_id: Vec<char>,
)
    requires
        call_ensures(matches_query, (entry, query), r),
        name@ == entry.name@,
        type_id@ == entry.type_id@,
        call_ensures(words::to_lowercase, (name,), lower_name),
        call_ensures(words::to_lowercase, (type_id,), lower_id),
    ensures
        r <==> query@.len() == 0 || (exists|i: int|
            0 <= i <= lower_name@.len() - query@.len() && #[trigger] lower_name@.subrange(
                i,
                i + query@.len(),
            ) == query@) || (exists|i: int|
            0 <= i <= lower_id@.len() - query@.len() && #[trigger] lower_id@.subrange(
                i,
                i + query@.len(),
            ) == query@),
{
    let n = query@.len() as int;
    if words::holds(lower_name@, query@) {
        let i = choose|i: int| words::stands_at(lower_name@, query@, i);
        assert(lower_name@.subrange(i, i + n) == query@);
    }
    if words::holds(lower_id@, query@) {
        let i = choose|i: int| words::stands_at(lower_id@, query@, i);
        assert(lower_id@.subrange(i, i + n) == query@);
    }
    if exists|i: int|
        0 <= i <= lower_name@.len() - query@.len() && #[trigger] lower_name@.subrange(
            i,
            i + query@.len(),
        ) == query@ {
        let i = choose|i: int|
            0 <= i <= lower_name@.len() - query@.len() && #[trigger] lower_name@.subrange(
                i,
                i + query@.len(),
            ) == query@;
        assert(words::stands_at(lower_name@, query@, i));
    }
    if exists|i: int|
        0 <= i <= lower_id@.len() - query@.len() && #[trigger] lower_id@.subrange(
            i,
            i + query@.len(),
        ) == query@ {
        let i = choose|i: int|
            0 <= i <= lower_id@.len() - query@.len() && #[trigger] lower_id@.subrange(
                i,
                i + query@.len(),
            ) == query@;
        assert(words::stands_at(lower_id@, query@, i));
    }
}

/// White space around a search text does not count.
pub proof fn law_searches_ignore_white_space_around(
    padded: &str,
    bare: &str,
    before: Seq<char>,
    after: Seq<char>,
    a: String,
    b: String,
)
    requires
        padded@ == before + bare@ + after,
        forall|k: int| 0 <= k < before.len() ==> words::is_white(#[trigger] before[k]),
        forall|k: int| 0 <= k < after.len() ==> words::is_white(#[trigger] after[k]),
        call_ensures(query_of, (padded,), a),
        call_ensures(query_of, (bare,), b),
    ensures
        a@ == b@,
{
    words::lemma_padding_drops(before, bare@, after);
}

/// A group whose state is turned over is collapsed where it was not, the
/// answer says so, and no other group changes.
pub proof fn law_toggling_turns_one_group_over(
    collapsed: &mut TextSet,
    group_key: &str,
    r: bool,
    other: Seq<char>,
)
    requires
        call_ensures(toggle_collapsed, (collapsed, group_key), r),
    ensures
        final(collapsed)@.contains(group_key@) <==> !old(collapsed)@.contains(group_key@),
        r <==> final(collapsed)@.contains(group_key@),
        other != group_key@ ==> (final(collapsed)@.contains(other) <==> old(collapsed)@.contains(
            other,
        )),
{
}

/// Headers of different groups differ.
proof fn lemma_rows_repeat_no_header(
    entries: Seq<EffectEntry>,
    matched: Seq<bool>,
    searching: bool,
    collapsed: Set<Seq<char>>,
    from: int,
    last: Option<Option<Seq<char>>>,
    i: int,
    j: int,
)
    requires
        matched.len() == entries.len(),
        0 <= from <= entries.len(),
    ensures
        ({
            let rows = rows_from(entries, matched, searching, collapsed, from, last);
            &&& (last is Some && 0 <= j < rows.len() && rows[j] is Header && forall|m: int|
                0 <= m < j ==> #[trigger] rows[m] is Entry) ==> rows[j] != header(
                last->0,
                collapsed,
            )
            &&& (0 <= i < j < rows.len() && rows[i] is Header && rows[j] is Header && forall|m: int|
                i < m < j ==> #[trigger] rows[m] is Entry) ==> rows[i] != rows[j]
        }),
    decreases entries.len() - from,
{
    let rows = rows_from(entries, matched, searching, collapsed, from, last);
    if from < entries.len() {
        if !matched[from] {
            lemma_rows_repeat_no_header(
                entries,
                matched,
                searching,
                collapsed,
                from + 1,
                last,
                i,
                j,
            );
        } else {
            let group = entries[from].group_text();
            let heading = if last == Some(group) {
                Seq::empty()
            } else {
                seq![header(group, collapsed)]
            };
            let own = if is_hidden(&entries[from], searching, collapsed) {
                Seq::empty()
            } else {
                seq![RowModel::Entry(from)]
            };
            let tail = rows_from(entries, matched, searching, collapsed, from + 1, Some(group));
            let n = (heading + own).len() as int;
            assert(rows =~= heading + own + tail);
            assert forall|m: int| n <= m < rows.len() implies #[trigger] rows[m] == tail[m - n] by {}
            lemma_rows_repeat_no_header(
                entries,
                matched,
                searching,
                collapsed,
                from + 1,
                Some(group),
                i - n,
                j - n,
            );
            if n <= j < rows.len() {
                assert(rows[j] == tail[j - n]);
                if (forall|m: int| 0 <= m < j ==> #[trigger] rows[m] is Entry) || i < n {
                    if forall|m: int| i < m < j && 0 <= m ==> #[trigger] rows[m] is Entry {
                        assert forall|m: int| 0 <= m < j - n implies #[trigger] tail[m] is Entry by {
                            assert(rows[m + n] == tail[m]);
                        }
                    }
                }
                if n <= i < j {
                    assert(rows[i] == tail[i - n]);
                    if forall|m: int| i < m < j ==> #[trigger] rows[m] is Entry {
                        assert forall|m: int| i - n < m < j - n implies #[trigger] tail[m] is Entry by {
                            assert(rows[m + n] == tail[m]);
                        }
                    }
                }
            }
            if last is Some && heading.len() > 0 {
                assert(rows[0] == header(group, collapsed));
                assert(header(group, collapsed) != header(last->0, collapsed));
            }
        }
    }
}

/// A header is not repeated within its group: the next header is another
/// one.
pub proof fn law_headers_are_not_repeated(
    entries: &Vec<EffectEntry>,
    matched: &Vec<bool>,
    searching: bool,
    collapsed: &TextSet,
    rows: Vec<LibraryRow>,
    i: int,
    j: int,
)
    requires
        matched@.len() == entries@.len(),
        call_ensures(arrange_rows, (entries, matched, searching, collapsed), rows),
        0 <= i < j < rows@.len(),
        rows@[i] is Header,
        rows@[j] is Header,
        forall|m: int| i < m < j ==> #[trigger] rows@[m] is Entry,
    ensures
        rows@[i]@ != rows@[j]@,
{
    let shown = rows_model(rows@);
    assert(shown[i] == rows@[i]@ && shown[j] == rows@[j]@);
    assert forall|m: int| i < m < j implies #[trigger] shown[m] is Entry by {
        assert(rows@[m] is Entry);
    }
    lemma_rows_repeat_no_header(entries@, matched@, searching, collapsed@, 0, None, i, j);
}

/// The pieces of a text with a separator in it are those before and those
/// behind it.
proof fn lemma_pieces_joined(a: Seq<char>, b: Seq<char>, current: Seq<char>, separator: char)
    ensures
        pieces_from(a + seq![separator] + b, current, separator) == pieces_from(
            a,
            current,
            separator,
        ) + pieces_from(b, Seq::empty(), separator),
    decreases a.len(),
{
    let whole = a + seq![separator] + b;
    if a.len() == 0 {
        assert(whole.skip(1) =~= b);
    } else {
        assert(whole[0] == a[0]);
        assert(whole.skip(1) =~= a.skip(1) + seq![separator] + b);
        if a[0] == separator {
            lemma_pieces_joined(a.skip(1), b, Seq::empty(), separator);
            assert(seq![current] + (pieces_from(a.skip(1), Seq::empty(), separator) + pieces_from(
                b,
                Seq::empty(),
                separator,
            )) =~= pieces_from(a, current, separator) + pieces_from(b, Seq::empty(), separator));
        } else {
            lemma_pieces_joined(a.skip(1), b, current.push(a[0]), separator);
        }
    }
}

/// The keys of two lists.
proof fn lemma_keys_joined(a: Seq<Seq<char>>, b: Seq<Seq<char>>)
    ensures
        keys_of(a + b) == keys_of(a).union(keys_of(b)),
    decreases a.len(),
{
    if a.len() == 0 {
        assert(a + b =~= b);
        assert(keys_of(a) =~= Set::empty());
        assert(keys_of(a + b) =~= keys_of(a).union(keys_of(b)));
    } else {
        let rest = a.skip(1);
        assert(a =~= seq![a[0]] + rest);
        assert(a + b =~= seq![a[0]] + (rest + b));
        lemma_keys_split(a[0], rest + b);
        lemma_keys_split(a[0], rest);
        lemma_keys_joined(rest, b);
        assert(keys_of(a + b) =~= keys_of(a).union(keys_of(b)));
    }
}

/// A stored text names the groups that it names before a comma and those
/// that it names behind it.
pub proof fn law_commas_separate_the_stored_keys(
    whole: &str,
    a: &str,
    b: &str,
    r: TextSet,
    before: TextSet,
    behind: TextSet,
    key: Seq<char>,
)
    requires
        whole@ == a@ + seq![','] + b@,
        call_ensures(parse_collapsed, (whole,), r),
        call_ensures(parse_collapsed, (a,), before),
        call_ensures(parse_collapsed, (b,), behind),
    ensures
        r@.contains(key) <==> before@.contains(key) || behind@.contains(key),
{
    lemma_pieces_joined(a@, b@, Seq::empty(), ',');
    lemma_keys_joined(pieces(a@, ','), pieces(b@, ','));
}

/// A stored text without a comma names one group: itself without the white
/// space around it, and none where nothing else is in it.
pub proof fn law_stored_keys_are_trimmed(
    raw: &str,
    r: TextSet,
    before: Seq<char>,
    key: Seq<char>,
    after: Seq<char>,
    other: Seq<char>,
)
    requires
        call_ensures(parse_collapsed, (raw,), r),
        raw@ == before + key + after,
        forall|k: int| 0 <= k < before.len() ==> words::is_white(#[trigger] before[k]),
        forall|k: int| 0 <= k < after.len() ==> words::is_white(#[trigger] after[k]),
        key.len() > 0 ==> !words::is_white(key[0]) && !words::is_white(key.last()),
        !key.contains(','),
    ensures
        r@.contains(other) <==> key.len() > 0 && other == key,
{
    words::lemma_padding_drops(before, key, after);
    assert(!raw@.contains(',')) by {
        if raw@.contains(',') {
            let k = choose|k: int| 0 <= k < raw@.len() && raw@[k] == ',';
            if k < before.len() {
                assert(words::is_white(before[k]));
            } else if k < before.len() + key.len() {
                assert(key[k - before.len()] == ',');
            } else {
                assert(words::is_white(after[k - before.len() - key.len()]));
            }
        }
    }
    lemma_one_piece(raw@, Seq::empty(), ',');
    assert(Seq::<char>::empty() + raw@ =~= raw@);
    let list = pieces(raw@, ',');
    if r@.contains(other) {
        let i = choose|i: int| spells(list, i, other);
        assert(i == 0);
    }
    if key.len() > 0 && other == key {
        assert(spells(list, 0, other));
    }
}

/// The built-in group is among the groups that were stored exactly where the
/// text starts with a comma; any other group is where the text names it.
pub proof fn law_a_comma_in_front_stands_for_the_built_in_group(
    raw: &str,
    r: TextSet,
    named: TextSet,
    key: Seq<char>,
)
    requires
        call_ensures(loaded_collapsed, (raw,), r),
        call_ensures(parse_collapsed, (raw,), named),
    ensures
        r@.contains(Seq::empty()) <==> raw@.len() > 0 && raw@[0] == ',',
        key.len() > 0 ==> (r@.contains(key) <==> named@.contains(key)),
{
}

} // verus!
