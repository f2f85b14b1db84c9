//! Text: what trimming, comparing, replacing and joining give, and numbers as text.
use vstd::prelude::*;

use crate::number::{decimal_text, digit_value, digits_value, number_value};
use crate::search::{
    char_trimmed_back, char_trimmed_front, lower_char, lower_text, replaced, same_ignoring_case,
    stripped_front,
};
use crate::text::{is_space, join_texts, text_less};

verus! {

/// White space is made of blanks, tabs, line and page feeds, returns and the wider and narrower spaces of
/// Unicode; a letter, a digit, a control character or a zero-width character is none.
pub proof fn law_white_space(c: char)
    ensures
        is_space(c) <==> (c == '\t' || c == '\n' || c == '\u{b}' || c == '\u{c}' || c == '\r' || c == ' '
            || c == '\u{85}' || c == '\u{a0}' || c == '\u{1680}' || c == '\u{2000}' || c == '\u{2001}'
            || c == '\u{2002}' || c == '\u{2003}' || c == '\u{2004}' || c == '\u{2005}' || c == '\u{2006}'
            || c == '\u{2007}' || c == '\u{2008}' || c == '\u{2009}' || c == '\u{200a}' || c == '\u{2028}'
            || c == '\u{2029}' || c == '\u{202f}' || c == '\u{205f}' || c == '\u{3000}'),
{
}

/// In lower case, a letter from `A` to `Z` is the one from `a` to `z` at the same place, and every other
/// character is itself; so a text keeps its length, and lower case stays as it is.
pub proof fn law_lower_case(s: Seq<char>, i: int, k: nat)
    requires
        0 <= i < s.len(),
        k < 26,
    ensures
        lower_text(s).len() == s.len(),
        s[i] == ('A' as nat + k) as char ==> lower_text(s)[i] == ('a' as nat + k) as char,
        !('A' as nat <= s[i] as nat <= 'Z' as nat) ==> lower_text(s)[i] == s[i],
        lower_text(lower_text(s)) == lower_text(s),
{
    let low = lower_text(s);
    assert forall|k: int| 0 <= k < low.len() implies #[trigger] lower_text(low)[k] == low[k] by {
        assert(low[k] == lower_char(s[k]));
    }
    assert(lower_text(low) =~= low);
    assert(low[i] == lower_char(s[i]));
}

/// Two texts are the same but for the case of letters exactly where they have as many characters, and each
/// two that stand at the same place are so.
pub proof fn law_same_ignoring_case(a: Seq<char>, b: Seq<char>)
    ensures
        same_ignoring_case(a, b) <==> a.len() == b.len() && forall|i: int|
            0 <= i < a.len() ==> lower_char(#[trigger] a[i]) == lower_char(b[i]),
        same_ignoring_case(a, b) == same_ignoring_case(b, a),
{
    let (x, y) = (lower_text(a), lower_text(b));
    if same_ignoring_case(a, b) {
        assert(x.len() == y.len());
        assert forall|i: int| 0 <= i < a.len() implies lower_char(#[trigger] a[i]) == lower_char(
            b[i],
        ) by {
            assert(x[i] == y[i]);
        }
    }
    if a.len() == b.len() && forall|i: int|
        0 <= i < a.len() ==> lower_char(#[trigger] a[i]) == lower_char(b[i]) {
        assert forall|i: int| 0 <= i < x.len() implies x[i] == y[i] by {
            assert(lower_char(a[i]) == lower_char(b[i]));
        }
        assert(x =~= y);
    }
}

/// Whether a text stands at a place in another.
pub open spec fn stands_at(s: Seq<char>, part: Seq<char>, at: int) -> bool {
    0 <= at && at + part.len() <= s.len() && forall|i: int|
        0 <= i < part.len() ==> #[trigger] s[at + i] == part[i]
}

/// What is replaced is the first occurrence, and after it what follows; a text in which there is none stays
/// as it is.
pub proof fn law_replaced_text(
    before: Seq<char>,
    from: Seq<char>,
    after: Seq<char>,
    to: Seq<char>,
)
    requires
        from.len() > 0,
    ensures
        (forall|at: int| 0 <= at < before.len() ==> !#[trigger] stands_at(before + from + after, from, at))
            ==> replaced(before + from + after, from, to) == before + to + replaced(after, from, to),
        (forall|at: int| 0 <= at < before.len() ==> !#[trigger] stands_at(before, from, at)) ==> replaced(
            before,
            from,
            to,
        ) == before,
    decreases before.len(),
{
    let s = before + from + after;
    if before.len() == 0 {
        assert(from =~= s.subrange(0, from.len() as int));
        assert(s.skip(from.len() as int) =~= after);
        assert(before + to + replaced(after, from, to) =~= to + replaced(after, from, to));
        assert(replaced(before, from, to) =~= before);
    } else {
        let rest = before.drop_first();
        assert(s.drop_first() =~= rest + from + after);
        law_replaced_text(rest, from, after, to);
        if forall|at: int| 0 <= at < before.len() ==> !#[trigger] stands_at(s, from, at) {
            assert(!stands_at(s, from, 0));
            if from.is_prefix_of(s) {
                assert(from =~= s.subrange(0, from.len() as int));
                assert forall|i: int| 0 <= i < from.len() implies #[trigger] s[0 + i] == from[i] by {
                    assert(s.subrange(0, from.len() as int)[i] == s[i]);
                }
            }
            assert forall|at: int| 0 <= at < rest.len() implies !#[trigger] stands_at(
                rest + from + after,
                from,
                at,
            ) by {
                if stands_at(rest + from + after, from, at) {
                    assert forall|i: int| 0 <= i < from.len() implies #[trigger] s[at + 1 + i]
                        == from[i] by {
                        assert((rest + from + after)[at + i] == s[at + i + 1]);
                    }
                    assert(stands_at(s, from, at + 1));
                }
            }
            assert(replaced(s, from, to) =~= before + to + replaced(after, from, to));
        }
        if forall|at: int| 0 <= at < before.len() ==> !#[trigger] stands_at(before, from, at) {
            assert(!stands_at(before, from, 0));
            if from.is_prefix_of(before) {
                assert forall|i: int| 0 <= i < from.len() implies #[trigger] before[0 + i] == from[i] by {
                    assert(before.subrange(0, from.len() as int)[i] == before[i]);
                }
            }
            assert forall|at: int| 0 <= at < rest.len() implies !#[trigger] stands_at(rest, from, at) by {
                if stands_at(rest, from, at) {
                    assert forall|i: int| 0 <= i < from.len() implies #[trigger] before[at + 1 + i]
                        == from[i] by {
                        assert(rest[at + i] == before[at + i + 1]);
                    }
                    assert(stands_at(before, from, at + 1));
                }
            }
            assert(replaced(before, from, to) =~= before);
        }
    }
}

/// Each occurrence of a text at the start goes, and nothing else.
pub proof fn law_stripped_front(s: Seq<char>, part: Seq<char>)
    requires
        part.len() > 0,
    ensures
        stripped_front(part + s, part) == stripped_front(s, part),
        !part.is_prefix_of(s) ==> stripped_front(s, part) == s,
        !part.is_prefix_of(stripped_front(s, part)),
    decreases s.len(),
{
    assert(part =~= (part + s).subrange(0, part.len() as int));
    assert((part + s).skip(part.len() as int) =~= s);
    if part.is_prefix_of(s) {
        law_stripped_front(s.skip(part.len() as int), part);
    }
}

/// Each occurrence of a character at an end goes, and nothing else.
pub proof fn law_char_trimmed(s: Seq<char>, c: char)
    ensures
        char_trimmed_front(seq![c] + s, c) == char_trimmed_front(s, c),
        char_trimmed_back(s + seq![c], c) == char_trimmed_back(s, c),
        s.len() > 0 && s[0] != c ==> char_trimmed_front(s, c) == s,
        s.len() > 0 && s[s.len() - 1] != c ==> char_trimmed_back(s, c) == s,
        char_trimmed_front(Seq::empty(), c) == Seq::<char>::empty(),
        char_trimmed_back(Seq::empty(), c) == Seq::<char>::empty(),
{
    assert((seq![c] + s).drop_first() =~= s);
    assert((s + seq![c]).drop_last() =~= s);
}

/// A text comes before another where, at the first place at which they differ, it ends or has the smaller
/// character.
pub proof fn law_text_less(common: Seq<char>, a: Seq<char>, b: Seq<char>)
    ensures
        text_less(common + a, common + b) == text_less(a, b),
        a.len() == 0 && b.len() > 0 ==> text_less(a, b),
        b.len() == 0 ==> !text_less(a, b),
        a.len() > 0 && b.len() > 0 && a[0] != b[0] ==> text_less(a, b) == ((a[0] as u32) < (b[0] as u32)),
    decreases common.len(),
{
    if common.len() == 0 {
        assert(common + a =~= a);
        assert(common + b =~= b);
    } else {
        law_text_less(common.drop_first(), a, b);
        assert((common + a).drop_first() =~= common.drop_first() + a);
        assert((common + b).drop_first() =~= common.drop_first() + b);
    }
}

/// Texts are joined in order, with the separator between each two, and neither before the first nor behind
/// the last.
pub proof fn law_joined(parts: Seq<Seq<char>>, part: Seq<char>, separator: Seq<char>)
    ensures
        join_texts(Seq::empty(), separator) == Seq::<char>::empty(),
        join_texts(seq![part], separator) == part,
        parts.len() > 0 ==> join_texts(parts.push(part), separator) == join_texts(parts, separator)
            + separator + part,
{
    assert(parts.push(part).drop_last() =~= parts);
}

/// A digit is worth what its place among the digits says, and a letter, in either case, ten more than its
/// place in the alphabet, where the base has such a digit.
pub proof fn law_digit(radix: nat, value: nat)
    requires
        value < radix <= 36,
    ensures
        value < 10 ==> digit_value(('0' as nat + value) as char, radix) == Some(value),
        value >= 10 ==> digit_value(('a' as nat + value - 10) as char, radix) == Some(value),
        value >= 10 ==> digit_value(('A' as nat + value - 10) as char, radix) == Some(value),
        forall|c: char| #[trigger]
            digit_value(c, radix) == Some(value) ==> c as nat == '0' as nat + value || c as nat == 'a' as nat
                + value - 10 || c as nat == 'A' as nat + value - 10,
        forall|c: char| #[trigger] digit_value(c, radix) matches Some(worth) ==> worth < radix,
{
}

/// A run of digits is read from left to right, each digit worth the base times less than the one before
/// it; one `+` may stand before it; nothing else is a number, and none is larger than the limit.
pub proof fn law_number(s: Seq<char>, c: char, radix: nat, max: nat)
    requires
        radix > 0,
    ensures
        digits_value(Seq::empty(), radix) == Some(0nat),
        digits_value(s.push(c), radix) == match (digits_value(s, radix), digit_value(c, radix)) {
            (Some(high), Some(low)) => Some(high * radix + low),
            _ => None,
        },
        number_value(Seq::empty(), radix, max) is None,
        number_value(seq!['+'], radix, max) is None,
        s.len() > 0 && s[0] != '+' ==> number_value(seq!['+'] + s, radix, max) == number_value(
            s,
            radix,
            max,
        ),
        s.len() > 0 && s[0] != '+' ==> match digits_value(s, radix) {
            Some(value) => number_value(s, radix, max) == if value <= max {
                Some(value)
            } else {
                None
            },
            None => number_value(s, radix, max) is None,
        },
{
    assert(s.push(c).drop_last() =~= s);
    assert((seq!['+'] + s).drop_first() =~= s);
    assert(seq!['+'].drop_first() =~= Seq::<char>::empty());
}

/// A number in decimal has its last digit last, and what is left of it before that; no zero leads it.
pub proof fn law_decimal(n: nat, last: nat)
    requires
        last < 10,
    ensures
        decimal_text(last) == seq![('0' as nat + last) as char],
        n > 0 ==> decimal_text(n * 10 + last) == decimal_text(n) + seq![('0' as nat + last) as char],
{
    assert((n * 10 + last) / 10 == n);
    assert((n * 10 + last) % 10 == last);
    assert(decimal_text(n).push(('0' as nat + last) as char) =~= decimal_text(n) + seq![
        ('0' as nat + last) as char,
    ]);
}

} // verus!
