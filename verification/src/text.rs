//! Character-level helpers over `&str` and `String`: equality,
//! conversion, decimal numbers and the lexicographic order that sorted
//! collections of text rely on.

use vstd::prelude::*;

verus! {

/// `str` equality of std: two strings are equal exactly when they hold
/// the same characters.
pub assume_specification[ <str as PartialEq<str>>::eq ](a: &str, b: &str) -> (same: bool)
    ensures
        same == (a@ == b@),
;

/// `String::push` of std: appends one character.
pub assume_specification[ String::push ](s: &mut String, c: char)
    ensures
        final(s)@ == old(s)@.push(c),
;

/// Whether `a` and `b` hold the same characters.
pub fn same(a: &str, b: &str) -> (r: bool)
    ensures
        r == (a@ == b@),
{
    *a == *b
}

/// The characters of `s`.
pub fn chars_of(s: &str) -> (r: Vec<char>)
    ensures
        r@ == s@,
{
    let mut out: Vec<char> = Vec::new();
    for c in iter: s.chars()
        invariant
            out@ =~= iter.seq().subrange(0, iter.index() as int),
    {
        out.push(c);
    }
    out
}

/// A string holding `chars`.
pub fn string_of(chars: &Vec<char>) -> (r: String)
    ensures
        r@ == chars@,
{
    let mut out: String = String::new();
    let mut i: usize = 0;
    while i < chars.len()
        invariant
            i <= chars.len(),
            out@ =~= chars@.subrange(0, i as int),
        decreases chars.len() - i,
    {
        out.push(chars[i]);
        i = i + 1;
    }
    assert(chars@.subrange(0, i as int) =~= chars@);
    out
}

/// Append every character of `s` to `out`.
pub fn push_text(out: &mut Vec<char>, s: &str)
    ensures
        final(out)@ == old(out)@ + s@,
{
    let mut chars: Vec<char> = chars_of(s);
    out.append(&mut chars);
}

/// The texts one after another with `separator` between them.
pub open spec fn joined(texts: Seq<Seq<char>>, separator: char) -> Seq<char>
    decreases texts.len(),
{
    if texts.len() == 0 {
        Seq::empty()
    } else if texts.len() == 1 {
        texts[0]
    } else {
        joined(texts.drop_last(), separator).push(separator) + texts.last()
    }
}

/// What a list of strings holds.
pub open spec fn texts_of(names: Seq<&'static str>) -> Seq<Seq<char>> {
    names.map_values(|s: &'static str| s@)
}

/// What a list of owned strings holds.
pub open spec fn strings_of(list: Seq<String>) -> Seq<Seq<char>> {
    list.map_values(|s: String| s@)
}

/// The names one after another with `separator` between them.
pub fn join(names: &[&'static str], separator: char) -> (r: String)
    ensures
        r@ == joined(texts_of(names@), separator),
{
    let mut out: Vec<char> = Vec::new();
    let mut i: usize = 0;
    let ghost texts = texts_of(names@);
    while i < names.len()
        invariant
            i <= names@.len(),
            texts == texts_of(names@),
            out@ == joined(texts.subrange(0, i as int), separator),
        decreases names@.len() - i,
    {
        let ghost so_far = texts.subrange(0, i + 1);
        assert(so_far.drop_last() =~= texts.subrange(0, i as int));
        assert(so_far.last() == names@[i as int]@);
        if i > 0 {
            out.push(separator);
        }
        push_text(&mut out, names[i]);
        assert(out@ =~= joined(so_far, separator));
        i = i + 1;
    }
    assert(texts.subrange(0, i as int) =~= texts);
    string_of(&out)
}

/// The strings one after another with `separator` between them.
pub fn join_strings(list: &Vec<String>, separator: char) -> (r: String)
    ensures
        r@ == joined(strings_of(list@), separator),
{
    let mut out: Vec<char> = Vec::new();
    let mut i: usize = 0;
    let ghost texts = strings_of(list@);
    while i < list.len()
        invariant
            i <= list@.len(),
            texts == strings_of(list@),
            out@ == joined(texts.subrange(0, i as int), separator),
        decreases list@.len() - i,
    {
        let ghost so_far = texts.subrange(0, i + 1);
        assert(so_far.drop_last() =~= texts.subrange(0, i as int));
        assert(so_far.last() == list@[i as int]@);
        if i > 0 {
            out.push(separator);
        }
        push_text(&mut out, list[i].as_str());
        assert(out@ =~= joined(so_far, separator));
        i = i + 1;
    }
    assert(texts.subrange(0, i as int) =~= texts);
    string_of(&out)
}

/// The decimal digit `d` as a character.
pub open spec fn digit(d: nat) -> char {
    (48 + d) as char
}

/// The decimal digits of `n`, most significant first, without leading
/// zeros.
pub open spec fn decimal(n: nat) -> Seq<char>
    decreases n,
{
    if n < 10 {
        seq![digit(n)]
    } else {
        decimal(n / 10).push(digit(n % 10))
    }
}

/// The decimal digits of `n`.
pub fn decimal_chars(n: u64) -> (r: Vec<char>)
    ensures
        r@ == decimal(n as nat),
    decreases n,
{
    let last: u8 = 48u8 + (n % 10) as u8;
    let mut out: Vec<char> = if n < 10 {
        Vec::new()
    } else {
        decimal_chars(n / 10)
    };
    out.push(last as char);
    assert(out@ =~= decimal(n as nat));
    out
}

/// Lexicographic order by character code: the order of `String`.
pub open spec fn text_less(a: Seq<char>, b: Seq<char>) -> bool
    decreases a.len(),
{
    if b.len() == 0 {
        false
    } else if a.len() == 0 {
        true
    } else if a[0] != b[0] {
        (a[0] as int) < (b[0] as int)
    } else {
        text_less(a.skip(1), b.skip(1))
    }
}

/// No text precedes itself.
pub proof fn lemma_text_less_irreflexive(a: Seq<char>)
    ensures
        !text_less(a, a),
    decreases a.len(),
{
    if a.len() > 0 {
        lemma_text_less_irreflexive(a.skip(1));
    }
}

/// The order is transitive.
pub proof fn lemma_text_less_transitive(a: Seq<char>, b: Seq<char>, c: Seq<char>)
    requires
        text_less(a, b),
        text_less(b, c),
    ensures
        text_less(a, c),
    decreases a.len(),
{
    if a.len() > 0 && a[0] == b[0] && b[0] == c[0] {
        lemma_text_less_transitive(a.skip(1), b.skip(1), c.skip(1));
    }
}

/// Two different texts are always ordered one way.
pub proof fn lemma_text_less_total(a: Seq<char>, b: Seq<char>)
    ensures
        text_less(a, b) || text_less(b, a) || a == b,
    decreases a.len(),
{
    if a.len() == 0 || b.len() == 0 {
        if a.len() == b.len() {
            assert(a =~= b);
        }
    } else if a[0] != b[0] {
        assert(a[0] as int != b[0] as int);
    } else {
        lemma_text_less_total(a.skip(1), b.skip(1));
        if a.skip(1) == b.skip(1) {
            assert(a =~= seq![a[0]] + a.skip(1));
            assert(b =~= seq![b[0]] + b.skip(1));
        }
    }
}

/// The order is asymmetric.
pub proof fn lemma_text_less_asymmetric(a: Seq<char>, b: Seq<char>)
    requires
        text_less(a, b),
    ensures
        !text_less(b, a),
        a != b,
{
    lemma_text_less_irreflexive(a);
    if text_less(b, a) {
        lemma_text_less_transitive(a, b, a);
    }
}

/// Whether `a` precedes `b` in the order of `String`.
pub fn precedes(a: &str, b: &str) -> (r: bool)
    ensures
        r == text_less(a@, b@),
{
    let x: Vec<char> = chars_of(a);
    let y: Vec<char> = chars_of(b);
    let mut i: usize = 0;
    assert(a@.skip(0) =~= a@);
    assert(b@.skip(0) =~= b@);
    while i < x.len() && i < y.len()
        invariant
            x@ == a@,
            y@ == b@,
            i <= x.len(),
            i <= y.len(),
            text_less(a@, b@) == text_less(a@.skip(i as int), b@.skip(i as int)),
        decreases x.len() - i,
    {
        if x[i] != y[i] {
            return x[i] < y[i];
        }
        assert(a@.skip(i as int).skip(1) =~= a@.skip(i + 1));
        assert(b@.skip(i as int).skip(1) =~= b@.skip(i + 1));
        i = i + 1;
    }
    i < y.len()
}

/// One text precedes another where it is a proper start of it, or where it
/// has the smaller character at the first place where they differ.
pub proof fn law_texts_are_ordered_by_their_first_difference(
    a: &str,
    b: &str,
    r: bool,
    start: Seq<char>,
    rest: Seq<char>,
    other: Seq<char>,
)
    requires
        call_ensures(precedes, (a, b), r),
        a@ == start + rest,
        b@ == start + other,
        rest.len() == 0 || other.len() == 0 || rest[0] != other[0],
    ensures
        rest.len() == 0 ==> r == (other.len() > 0),
        rest.len() > 0 && other.len() == 0 ==> !r,
        rest.len() > 0 && other.len() > 0 ==> r == ((rest[0] as int) < (other[0] as int)),
{
    lemma_same_start(start, rest, other);
}

proof fn lemma_same_start(start: Seq<char>, rest: Seq<char>, other: Seq<char>)
    ensures
        text_less(start + rest, start + other) == text_less(rest, other),
    decreases start.len(),
{
    if start.len() == 0 {
        assert(start + rest =~= rest && start + other =~= other);
    } else {
        assert((start + rest).skip(1) =~= start.skip(1) + rest);
        assert((start + other).skip(1) =~= start.skip(1) + other);
        lemma_same_start(start.skip(1), rest, other);
    }
}

/// Joined texts stand in order with one separator between two of them, and
/// none around them.
pub proof fn law_joined_texts_have_separators_between(
    list: &Vec<String>,
    longer: &Vec<String>,
    separator: char,
    last: String,
    short: String,
    long: String,
)
    requires
        longer@ == list@.push(last),
        call_ensures(join_strings, (list, separator), short),
        call_ensures(join_strings, (longer, separator), long),
    ensures
        list@.len() == 0 ==> short@.len() == 0,
        long@ == (if list@.len() == 0 {
            last@
        } else {
            short@ + seq![separator] + last@
        }),
{
    let (a, b) = (strings_of(list@), strings_of(longer@));
    assert(b =~= a.push(last@));
    assert(b.drop_last() =~= a);
}

/// A number is spelled by its digits: one below ten by its own digit, and
/// any other by what it is without its last digit, and that digit.
pub proof fn law_numbers_are_spelled_digit_by_digit(n: u64, d: u64, r: Vec<char>, tens: Vec<char>)
    requires
        d < 10,
        10 * n + d <= u64::MAX,
        call_ensures(decimal_chars, ((10 * n + d) as u64,), r),
        call_ensures(decimal_chars, (n,), tens),
    ensures
        n > 0 ==> r@.drop_last() == tens@,
        n == 0 ==> r@.len() == 1,
        r@.len() > 0,
        r@.last() == "0123456789"@[d as int],
{
    reveal_strlit("0123456789");
    let whole = (10 * n + d) as nat;
    assert(whole / 10 == n && whole % 10 == d);
    if n > 0 {
        assert(decimal(whole) == decimal(n as nat).push(digit(d as nat)));
        assert(r@.drop_last() =~= tens@);
    }
}

} // verus!
