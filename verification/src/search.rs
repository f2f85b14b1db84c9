//! Looking for text in text.
use vstd::prelude::*;
use vstd::string::*;

use crate::text::{chars_of, string_of};

verus! {

/// A character, where it is an ASCII letter in lower case.
pub open spec fn lower_char(c: char) -> char {
    if 65 <= c as nat <= 90 {
        (c as nat + 32) as char
    } else {
        c
    }
}

/// A text with its ASCII letters in lower case.
pub open spec fn lower_text(s: Seq<char>) -> Seq<char> {
    s.map_values(|c: char| lower_char(c))
}

/// A character, where it is an ASCII letter in lower case.
pub fn lower(c: char) -> (r: char)
    ensures
        r == lower_char(c),
{
    let n: u32 = c as u32;
    if 65 <= n && n <= 90 {
        (n as u8 + 32) as char
    } else {
        c
    }
}

/// A text with its ASCII letters in lower case.
pub fn to_ascii_lowercase(s: &str) -> (r: String)
    ensures
        r@ == lower_text(s@),
{
    let chars = chars_of(s);
    let mut out = String::new();
    let mut i: usize = 0;
    while i < chars.len()
        invariant
            i <= chars.len(),
            out@ == lower_text(chars@).take(i as int),
        decreases chars.len() - i,
    {
        out.push(lower(chars[i]));
        i += 1;
        assert(lower_text(chars@).take(i as int) =~= lower_text(chars@).take(i - 1).push(
            lower_char(chars@[i - 1]),
        ));
    }
    assert(lower_text(chars@).take(i as int) =~= lower_text(chars@));
    out
}

/// Whether two texts are the same but for the case of ASCII letters.
pub open spec fn same_ignoring_case(a: Seq<char>, b: Seq<char>) -> bool {
    lower_text(a) == lower_text(b)
}

/// Whether two texts are the same but for the case of ASCII letters.
pub fn eq_ignore_ascii_case(a: &str, b: &str) -> (r: bool)
    ensures
        r == same_ignoring_case(a@, b@),
{
    to_ascii_lowercase(a) == to_ascii_lowercase(b)
}

/// Whether the characters from `at` on start with `part`.
pub fn matches_at(chars: &Vec<char>, at: usize, part: &Vec<char>) -> (r: bool)
    requires
        at <= chars.len(),
    ensures
        r == part@.is_prefix_of(chars@.skip(at as int)),
{
    if chars.len() - at < part.len() {
        return false;
    }
    let ghost rest = chars@.skip(at as int);
    let mut i: usize = 0;
    while i < part.len()
        invariant
            at <= chars.len(),
            rest == chars@.skip(at as int),
            i <= part.len() <= chars.len() - at,
            forall|k: int| 0 <= k < i ==> part@[k] == #[trigger] rest[k],
        decreases part.len() - i,
    {
        if chars[at + i] != part[i] {
            assert(rest[i as int] != part@[i as int]);
            return false;
        }
        i += 1;
    }
    assert(part@ =~= rest.subrange(0, part@.len() as int));
    true
}

/// Whether a text starts with another.
pub fn starts_with(s: &str, part: &str) -> (r: bool)
    ensures
        r == part@.is_prefix_of(s@),
{
    let chars = chars_of(s);
    assert(chars@.skip(0) =~= chars@);
    matches_at(&chars, 0, &chars_of(part))
}

/// A text with each occurrence of `from`, taken from left to right, replaced by `to`.
pub open spec fn replaced(s: Seq<char>, from: Seq<char>, to: Seq<char>) -> Seq<char>
    decreases s.len(),
{
    if s.len() == 0 || from.len() == 0 {
        s
    } else if from.is_prefix_of(s) {
        to + replaced(s.skip(from.len() as int), from, to)
    } else {
        seq![s[0]] + replaced(s.drop_first(), from, to)
    }
}

/// A text with each occurrence of `from`, which holds a character, replaced by `to`.
pub fn replace(s: &str, from: &str, to: &str) -> (r: String)
    requires
        from@.len() > 0,
    ensures
        r@ == replaced(s@, from@, to@),
{
    let chars = chars_of(s);
    let pattern = chars_of(from);
    let mut out = String::new();
    let mut i: usize = 0;
    assert(chars@.skip(0) =~= chars@);
    assert(out@ + replaced(chars@, from@, to@) =~= replaced(chars@, from@, to@));
    while i < chars.len()
        invariant
            i <= chars.len(),
            pattern@ == from@,
            from@.len() > 0,
            replaced(chars@, from@, to@) == out@ + replaced(chars@.skip(i as int), from@, to@),
        decreases chars.len() - i,
    {
        let ghost before = out@;
        let ghost rest = chars@.skip(i as int);
        if matches_at(&chars, i, &pattern) {
            out.append(to);
            i += pattern.len();
            assert(chars@.skip(i as int) =~= rest.skip(from@.len() as int));
            assert(out@ + replaced(chars@.skip(i as int), from@, to@) =~= before + replaced(
                rest,
                from@,
                to@,
            ));
        } else {
            out.push(chars[i]);
            i += 1;
            assert(chars@.skip(i as int) =~= rest.drop_first());
            assert(out@ + replaced(chars@.skip(i as int), from@, to@) =~= before + replaced(
                rest,
                from@,
                to@,
            ));
        }
    }
    assert(out@ + replaced(chars@.skip(i as int), from@, to@) =~= out@);
    out
}

/// A text without the occurrences of `part` at its start.
pub open spec fn stripped_front(s: Seq<char>, part: Seq<char>) -> Seq<char>
    decreases s.len(),
{
    if part.len() > 0 && part.is_prefix_of(s) {
        stripped_front(s.skip(part.len() as int), part)
    } else {
        s
    }
}

/// A text without the occurrences of `part`, which holds a character, at its start.
pub fn trim_start_matches(s: &str, part: &str) -> (r: String)
    requires
        part@.len() > 0,
    ensures
        r@ == stripped_front(s@, part@),
{
    let chars = chars_of(s);
    let pattern = chars_of(part);
    let mut i: usize = 0;
    assert(chars@.skip(0) =~= chars@);
    while matches_at(&chars, i, &pattern)
        invariant
            i <= chars.len(),
            pattern@ == part@,
            part@.len() > 0,
            stripped_front(chars@, part@) == stripped_front(chars@.skip(i as int), part@),
        decreases chars.len() - i,
    {
        let ghost rest = chars@.skip(i as int);
        i += pattern.len();
        assert(chars@.skip(i as int) =~= rest.skip(part@.len() as int));
    }
    assert(chars@.skip(i as int) =~= chars@.subrange(i as int, chars@.len() as int));
    let end: usize = chars.len();
    string_of(&chars, i, end)
}

/// A text without the occurrences of a character at its start.
pub open spec fn char_trimmed_front(s: Seq<char>, c: char) -> Seq<char>
    decreases s.len(),
{
    if s.len() > 0 && s[0] == c {
        char_trimmed_front(s.drop_first(), c)
    } else {
        s
    }
}

/// A text without the occurrences of a character at its end.
pub open spec fn char_trimmed_back(s: Seq<char>, c: char) -> Seq<char>
    decreases s.len(),
{
    if s.len() > 0 && s.last() == c {
        char_trimmed_back(s.drop_last(), c)
    } else {
        s
    }
}

/// A text without the occurrences of a character at its two ends.
pub fn trim_matches(s: &str, c: char) -> (r: String)
    ensures
        r@ == char_trimmed_back(char_trimmed_front(s@, c), c),
{
    let chars = chars_of(s);
    let mut i: usize = 0;
    assert(chars@.skip(0) =~= chars@);
    while i < chars.len() && chars[i] == c
        invariant
            i <= chars.len(),
            char_trimmed_front(chars@, c) == char_trimmed_front(chars@.skip(i as int), c),
        decreases chars.len() - i,
    {
        assert(chars@.skip(i as int).drop_first() =~= chars@.skip(i + 1));
        i += 1;
    }
    let mut j: usize = chars.len();
    let ghost front = chars@.skip(i as int);
    assert(front =~= chars@.subrange(i as int, j as int));
    while j > i && chars[j - 1] == c
        invariant
            i <= j <= chars.len(),
            char_trimmed_back(front, c) == char_trimmed_back(chars@.subrange(i as int, j as int), c),
        decreases j,
    {
        assert(chars@.subrange(i as int, j as int).drop_last() =~= chars@.subrange(i as int, j - 1));
        j -= 1;
    }
    string_of(&chars, i, j)
}

} // verus!
