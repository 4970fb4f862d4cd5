//! Numbered placeholders: `%1` stands for the first argument.
//!
//! Everything else in a template, and every argument, comes out as it is.

use vstd::prelude::*;

use crate::text;

verus! {

/// Whether a character is a decimal digit.
pub open spec fn is_digit(c: char) -> bool {
    '0' <= c <= '9'
}

/// How many digits `b` has from position `i` on.
pub open spec fn digit_count(s: Seq<char>, i: int) -> int
    decreases s.len() - i,
{
    if i < 0 || i >= s.len() || !is_digit(s[i]) {
        0
    } else {
        1 + digit_count(s, i + 1)
    }
}

/// The number that the digits spell.
pub open spec fn number(digits: Seq<char>) -> nat
    decreases digits.len(),
{
    if digits.len() == 0 {
        0
    } else {
        number(digits.drop_last()) * 10 + (digits.last() as int - 48) as nat
    }
}

/// The argument with the given number, counted from one. Nothing when
/// there is no such argument or the number is too large for an index.
pub open spec fn argument(args: Seq<Seq<char>>, n: nat) -> Seq<char> {
    if 1 <= n <= i32::MAX && n <= args.len() {
        args[n - 1]
    } else {
        Seq::empty()
    }
}

/// The template with its placeholders replaced: `%%` is a percent sign,
/// `%` with a number an argument, and any other percent sign stays.
pub open spec fn expanded(s: Seq<char>, args: Seq<Seq<char>>) -> Seq<char>
    decreases s.len(),
{
    if s.len() == 0 {
        Seq::empty()
    } else if s.len() > 1 && s[0] == '%' && s[1] == '%' {
        seq!['%'] + expanded(s.skip(2), args)
    } else if s.len() > 1 && s[0] == '%' && is_digit(s[1]) {
        let n = digit_count(s, 1);
        if 1 <= n < s.len() {
            argument(args, number(s.subrange(1, n + 1))) + expanded(s.skip(n + 1), args)
        } else {
            argument(args, number(s.subrange(1, s.len() as int)))
        }
    } else {
        seq![s[0]] + expanded(s.skip(1), args)
    }
}

/// Digits lie inside the text.
pub proof fn lemma_digit_count(s: Seq<char>, i: int)
    requires
        0 <= i <= s.len(),
    ensures
        0 <= digit_count(s, i) <= s.len() - i,
    decreases s.len() - i,
{
    if i < s.len() && is_digit(s[i]) {
        lemma_digit_count(s, i + 1);
    }
}

/// Digits do not depend on what stands before them.
proof fn lemma_digit_count_shift(s: Seq<char>, i: int, j: int)
    requires
        0 <= i <= j <= s.len(),
    ensures
        digit_count(s, j) == digit_count(s.skip(i), j - i),
    decreases s.len() - j,
{
    if j < s.len() {
        assert(s.skip(i)[j - i] == s[j]);
        if is_digit(s[j]) {
            lemma_digit_count_shift(s, i, j + 1);
        }
    }
}

/// A number read from the digits at a position: the digits' number where
/// it fits an index, and anything above that where it does not.
fn read_number(chars: &Vec<char>, start: usize) -> (r: (u64, usize))
    requires
        start <= chars@.len(),
    ensures
        r.1 == start + digit_count(chars@, start as int),
        r.1 <= chars@.len(),
        ({
            let n = number(chars@.subrange(start as int, r.1 as int));
            r.0 == n || (r.0 > i32::MAX && n > i32::MAX)
        }),
{
    let mut value: u64 = 0;
    let mut i: usize = start;
    proof {
        lemma_digit_count(chars@, start as int);
    }
    assert(chars@.subrange(start as int, start as int) =~= Seq::empty());
    while i < chars.len() && chars[i] >= '0' && chars[i] <= '9'
        invariant
            start <= i <= chars@.len(),
            start + digit_count(chars@, start as int) == i + digit_count(chars@, i as int),
            value <= 0xFFFF_FFFF_FFFF,
            ({
                let n = number(chars@.subrange(start as int, i as int));
                value == n || (value > i32::MAX && n > i32::MAX)
            }),
        decreases chars@.len() - i,
    {
        let ghost read = chars@.subrange(start as int, i + 1);
        assert(read.drop_last() =~= chars@.subrange(start as int, i as int));
        assert(read.last() == chars@[i as int]);
        if value <= 0x7FFF_FFFF {
            value = value * 10 + (chars[i] as u32 - 48) as u64;
        }
        i = i + 1;
    }
    (value, i)
}

/// Replace the placeholders of a template.
pub fn expand(input: &str, args: &Vec<String>) -> (r: String)
    ensures
        r@ == expanded(input@, text::strings_of(args@)),
{
    let chars: Vec<char> = text::chars_of(input);
    let mut out: Vec<char> = Vec::new();
    let mut i: usize = 0;
    let ghost whole = chars@;
    let ghost given = text::strings_of(args@);
    assert(whole.skip(0) =~= whole);
    while i < chars.len()
        invariant
            i <= chars@.len(),
            whole == chars@,
            given == text::strings_of(args@),
            out@ + expanded(whole.skip(i as int), given) == expanded(whole, given),
        decreases chars@.len() - i,
    {
        let ghost rest = whole.skip(i as int);
        let more: bool = chars.len() - i > 1;
        if more && chars[i] == '%' && chars[i + 1] == '%' {
            assert(rest.skip(2) =~= whole.skip(i + 2));
            assert(out@ + (seq!['%'] + expanded(whole.skip(i + 2), given)) =~= out@.push('%')
                + expanded(whole.skip(i + 2), given));
            out.push('%');
            i = i + 2;
        } else if more && chars[i] == '%' && chars[i + 1] >= '0' && chars[i + 1] <= '9' {
            let (n, end) = read_number(&chars, i + 1);
            let ghost count = digit_count(whole, i + 1);
            proof {
                lemma_digit_count_shift(whole, i as int, i + 1);
                lemma_digit_count(rest, 1);
                lemma_digit_count(whole, i + 2);
                assert(rest[1] == whole[i + 1]);
                assert(count >= 1);
                assert(rest.subrange(1, count + 1) =~= whole.subrange(i + 1, end as int));
                assert(rest.skip(count + 1) =~= whole.skip(end as int));
            }
            let ghost picked = argument(given, number(whole.subrange(i + 1, end as int)));
            let ghost tail = expanded(whole.skip(end as int), given);
            assert(expanded(rest, given) == picked + tail);
            assert(out@ + (picked + tail) =~= (out@ + picked) + tail);
            if n >= 1 && n <= 0x7FFF_FFFF && n <= args.len() as u64 {
                text::push_text(&mut out, args[(n - 1) as usize].as_str());
            } else {
                assert(picked =~= Seq::empty());
                assert(out@ + picked =~= out@);
            }
            i = end;
        } else {
            assert(rest.skip(1) =~= whole.skip(i + 1));
            assert(out@ + (seq![whole[i as int]] + expanded(whole.skip(i + 1), given))
                =~= out@.push(whole[i as int]) + expanded(whole.skip(i + 1), given));
            out.push(chars[i]);
            i = i + 1;
        }
    }
    assert(whole.skip(i as int) =~= Seq::empty());
    assert(out@ + Seq::<char>::empty() =~= out@);
    text::string_of(&out)
}

/// A template without a percent sign comes out as it is.
pub proof fn law_templates_without_placeholders_survive(s: Seq<char>, args: Seq<Seq<char>>)
    requires
        !s.contains('%'),
    ensures
        expanded(s, args) == s,
    decreases s.len(),
{
    if s.len() > 0 {
        assert(s.contains(s[0]));
        assert forall|c: char| s.skip(1).contains(c) implies s.contains(c) by {
            let k = choose|k: int| 0 <= k < s.skip(1).len() && s.skip(1)[k] == c;
            assert(s[k + 1] == c);
        }
        law_templates_without_placeholders_survive(s.skip(1), args);
        assert(seq![s[0]] + s.skip(1) =~= s);
    } else {
        assert(expanded(s, args) =~= s);
    }
}

/// A text with every percent sign doubled.
pub open spec fn doubled(s: Seq<char>) -> Seq<char>
    decreases s.len(),
{
    if s.len() == 0 {
        Seq::empty()
    } else if s[0] == '%' {
        seq!['%', '%'] + doubled(s.skip(1))
    } else {
        seq![s[0]] + doubled(s.skip(1))
    }
}

/// Doubling every percent sign of a text makes a template for the text.
pub proof fn law_doubled_percent_signs_survive(s: Seq<char>, args: Seq<Seq<char>>)
    ensures
        expanded(doubled(s), args) == s,
    decreases s.len(),
{
    let template = doubled(s);
    if s.len() == 0 {
        assert(expanded(template, args) =~= s);
    } else {
        law_doubled_percent_signs_survive(s.skip(1), args);
        assert(seq![s[0]] + s.skip(1) =~= s);
        if s[0] == '%' {
            assert(template[0] == '%' && template[1] == '%');
            assert(template.skip(2) =~= doubled(s.skip(1)));
        } else {
            assert(template[0] == s[0]);
            assert(template.skip(1) =~= doubled(s.skip(1)));
        }
    }
}

/// Digits that end where the template has no more of them.
proof fn lemma_digits_counted(s: Seq<char>, digits: Seq<char>, rest: Seq<char>, i: int)
    requires
        s == seq!['%'] + digits + rest,
        1 <= i <= digits.len() + 1,
        forall|k: int| 0 <= k < digits.len() ==> '0' <= #[trigger] digits[k] <= '9',
        rest.len() > 0 ==> !('0' <= rest[0] <= '9'),
    ensures
        digit_count(s, i) == digits.len() + 1 - i,
    decreases digits.len() + 1 - i,
{
    if i <= digits.len() {
        assert(s[i] == digits[i - 1]);
        lemma_digits_counted(s, digits, rest, i + 1);
    } else if rest.len() > 0 {
        assert(s[i] == rest[0]);
    }
}

/// A percent sign with digits behind it takes the argument of their number.
proof fn lemma_placeholder_expands(digits: Seq<char>, rest: Seq<char>, args: Seq<Seq<char>>)
    requires
        digits.len() > 0,
        forall|k: int| 0 <= k < digits.len() ==> '0' <= #[trigger] digits[k] <= '9',
        rest.len() > 0 ==> !('0' <= rest[0] <= '9'),
    ensures
        expanded(seq!['%'] + digits + rest, args) == argument(args, number(digits)) + expanded(
            rest,
            args,
        ),
{
    let s = seq!['%'] + digits + rest;
    lemma_digits_counted(s, digits, rest, 1);
    assert(s[1] == digits[0]);
    let end = digits.len() as int + 1;
    assert(s.subrange(1, end) =~= digits);
    assert(s.skip(end) =~= rest);
}

/// The decimal digits of a number spell it.
proof fn lemma_decimal_spells(n: nat)
    ensures
        text::decimal(n).len() > 0,
        forall|k: int|
            0 <= k < text::decimal(n).len() ==> '0' <= #[trigger] text::decimal(n)[k] <= '9',
        number(text::decimal(n)) == n,
    decreases n,
{
    reveal_with_fuel(number, 2);
    if n < 10 {
        assert(text::decimal(n).drop_last() =~= Seq::empty());
    } else {
        lemma_decimal_spells(n / 10);
        assert(text::decimal(n).drop_last() =~= text::decimal(n / 10));
    }
}

/// A percent sign followed by the decimal digits of `n` stands for the
/// argument with that number, counted from one, however many arguments
/// there are; where there is no such argument it stands for nothing.
pub proof fn law_placeholders_stand_for_their_arguments(
    input: &str,
    args: &Vec<String>,
    n: nat,
    r: String,
)
    requires
        input@ == seq!['%'] + text::decimal(n),
        call_ensures(expand, (input, args), r),
    ensures
        1 <= n <= args@.len() && n <= i32::MAX ==> r@ == args@[n - 1]@,
        n == 0 || n > args@.len() ==> r@.len() == 0,
{
    let digits = text::decimal(n);
    lemma_decimal_spells(n);
    assert(seq!['%'] + digits + Seq::<char>::empty() =~= seq!['%'] + digits);
    lemma_placeholder_expands(digits, Seq::empty(), text::strings_of(args@));
    assert(argument(text::strings_of(args@), n) + Seq::<char>::empty() =~= argument(
        text::strings_of(args@),
        n,
    ));
}

/// Leading zeros in the number of a placeholder do not count.
pub proof fn law_leading_zeros_do_not_count(
    short: &str,
    padded: &str,
    args: &Vec<String>,
    n: nat,
    plain: String,
    r: String,
)
    requires
        short@ == seq!['%'] + text::decimal(n),
        padded@ == seq!['%', '0'] + text::decimal(n),
        call_ensures(expand, (short, args), plain),
        call_ensures(expand, (padded, args), r),
    ensures
        r@ == plain@,
{
    let digits = text::decimal(n);
    let more = seq!['0'] + digits;
    let none = Seq::<char>::empty();
    lemma_decimal_spells(n);
    lemma_zero_in_front(digits);
    assert(seq!['%'] + digits + none =~= short@);
    assert(seq!['%'] + more + none =~= padded@);
    assert forall|k: int| 0 <= k < more.len() implies '0' <= #[trigger] more[k] <= '9' by {
        if k > 0 {
            assert(more[k] == digits[k - 1]);
        }
    }
    lemma_placeholder_expands(digits, none, text::strings_of(args@));
    lemma_placeholder_expands(more, none, text::strings_of(args@));
}

/// A zero in front of digits does not change their number.
proof fn lemma_zero_in_front(digits: Seq<char>)
    requires
        digits.len() > 0,
    ensures
        number(seq!['0'] + digits) == number(digits),
    decreases digits.len(),
{
    reveal_with_fuel(number, 3);
    let more = seq!['0'] + digits;
    assert(more.drop_last() =~= seq!['0'] + digits.drop_last());
    assert(more.last() == digits.last());
    if digits.len() > 1 {
        lemma_zero_in_front(digits.drop_last());
    } else {
        assert(more.drop_last() =~= seq!['0']);
        assert(seq!['0'].drop_last() =~= Seq::empty());
        assert(digits.drop_last() =~= Seq::empty());
    }
}

/// More text behind digits that does not start with a digit changes
/// nothing about them.
proof fn lemma_digits_joined(a: Seq<char>, b: Seq<char>, i: int)
    requires
        0 <= i <= a.len(),
        b.len() > 0 ==> !('0' <= b[0] <= '9'),
    ensures
        digit_count(a + b, i) == digit_count(a, i),
    decreases a.len() - i,
{
    if i < a.len() {
        assert((a + b)[i] == a[i]);
        if is_digit(a[i]) {
            lemma_digits_joined(a, b, i + 1);
        }
    } else if b.len() > 0 {
        assert((a + b)[i] == b[0]);
    }
}

/// A template expands part by part: two templates in a row expand to what
/// each does, where the second does not start with a digit that would
/// belong to a number, or with a percent sign that would double one at the
/// end of the first.
pub proof fn law_templates_expand_part_by_part(a: Seq<char>, b: Seq<char>, args: Seq<Seq<char>>)
    requires
        b.len() > 0 ==> !('0' <= b[0] <= '9'),
        b.len() > 0 && b[0] == '%' && a.len() > 0 ==> a.last() != '%',
    ensures
        expanded(a + b, args) == expanded(a, args) + expanded(b, args),
    decreases a.len(),
{
    let whole = a + b;
    if a.len() == 0 {
        assert(whole =~= b);
        assert(expanded(a, args) + expanded(b, args) =~= expanded(b, args));
    } else if a.len() > 1 && a[0] == '%' && a[1] == '%' {
        let rest = a.skip(2);
        assert(whole[0] == a[0] && whole[1] == a[1]);
        assert(whole.skip(2) =~= rest + b);
        if rest.len() > 0 {
            assert(rest.last() == a.last());
        }
        law_templates_expand_part_by_part(rest, b, args);
        assert(seq!['%'] + (expanded(rest, args) + expanded(b, args)) =~= seq!['%'] + expanded(
            rest,
            args,
        ) + expanded(b, args));
    } else if a.len() > 1 && a[0] == '%' && is_digit(a[1]) {
        let n = digit_count(a, 1);
        lemma_digit_count(a, 1);
        lemma_digit_count(a, 2);
        lemma_digits_joined(a, b, 1);
        let rest = a.skip(n + 1);
        assert(whole[0] == a[0] && whole[1] == a[1]);
        assert(whole.skip(n + 1) =~= rest + b);
        assert(whole.subrange(1, n + 1) =~= a.subrange(1, n + 1));
        if rest.len() > 0 {
            assert(rest.last() == a.last());
        }
        law_templates_expand_part_by_part(rest, b, args);
        let taken = argument(args, number(a.subrange(1, n + 1)));
        assert(taken + (expanded(rest, args) + expanded(b, args)) =~= taken + expanded(rest, args)
            + expanded(b, args));
    } else {
        let rest = a.skip(1);
        assert(whole[0] == a[0]);
        if a.len() > 1 {
            assert(whole[1] == a[1]);
            assert(rest.last() == a.last());
        } else if b.len() > 0 {
            assert(whole[1] == b[0]);
        }
        assert(whole.skip(1) =~= rest + b);
        law_templates_expand_part_by_part(rest, b, args);
        assert(seq![a[0]] + (expanded(rest, args) + expanded(b, args)) =~= seq![a[0]] + expanded(
            rest,
            args,
        ) + expanded(b, args));
    }
}

/// Replacing the placeholders of a template from its parts: the text in
/// front, a placeholder, and the text behind it.
pub proof fn law_expanding_replaces_each_placeholder(
    input: &str,
    args: &Vec<String>,
    front: Seq<char>,
    n: nat,
    behind: Seq<char>,
    r: String,
)
    requires
        input@ == front + (seq!['%'] + text::decimal(n)) + behind,
        !front.contains('%'),
        behind.len() > 0 ==> !('0' <= behind[0] <= '9'),
        1 <= n <= args@.len(),
        n <= i32::MAX,
        call_ensures(expand, (input, args), r),
    ensures
        r@ == front + args@[n - 1]@ + expanded(behind, text::strings_of(args@)),
        !behind.contains('%') ==> r@ == front + args@[n - 1]@ + behind,
{
    let given = text::strings_of(args@);
    let mark = seq!['%'] + text::decimal(n);
    lemma_decimal_spells(n);
    if front.len() > 0 {
        assert(front.contains(front.last()));
    }
    assert(input@ =~= front + (mark + behind));
    law_templates_expand_part_by_part(front, mark + behind, given);
    law_templates_without_placeholders_survive(front, given);
    lemma_placeholder_expands(text::decimal(n), behind, given);
    assert(seq!['%'] + text::decimal(n) + behind =~= mark + behind);
    let taken = argument(given, n);
    assert(front + (taken + expanded(behind, given)) =~= front + taken + expanded(behind, given));
    if !behind.contains('%') {
        law_templates_without_placeholders_survive(behind, given);
    }
}

} // verus!
