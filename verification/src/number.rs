//! Numbers as text.
use vstd::prelude::*;

use crate::text::chars_of;

verus! {

/// The character of a decimal digit.
pub open spec fn digit(d: nat) -> char {
    (48 + d) as char
}

/// A number in decimal.
pub open spec fn decimal_text(n: nat) -> Seq<char>
    decreases n,
{
    if n < 10 {
        seq![digit(n)]
    } else {
        decimal_text(n / 10).push(digit(n % 10))
    }
}

/// A number in decimal.
pub fn decimal(n: u128) -> (r: String)
    ensures
        r@ == decimal_text(n as nat),
    decreases n,
{
    let last: u8 = (n % 10) as u8;
    let c = (48 + last) as char;
    let mut r = if n < 10 {
        String::new()
    } else {
        decimal(n / 10)
    };
    r.push(c);
    assert(n < 10 ==> r@ =~= seq![digit(n as nat)]);
    r
}

/// What a character is worth as a digit.
pub open spec fn digit_value(c: char, radix: nat) -> Option<nat> {
    let n = c as nat;
    let value = if 48 <= n <= 57 {
        (n - 48) as nat
    } else if 97 <= n <= 122 {
        (n - 97 + 10) as nat
    } else if 65 <= n <= 90 {
        (n - 65 + 10) as nat
    } else {
        radix
    };
    if value < radix {
        Some(value)
    } else {
        None
    }
}

/// What a run of digits is worth.
pub open spec fn digits_value(s: Seq<char>, radix: nat) -> Option<nat>
    decreases s.len(),
{
    if s.len() == 0 {
        Some(0)
    } else {
        match (digits_value(s.drop_last(), radix), digit_value(s.last(), radix)) {
            (Some(high), Some(low)) => Some(high * radix + low),
            _ => None,
        }
    }
}

/// The number that a text stands for: digits, with at most one `+` before them, up to a limit.
pub open spec fn number_value(s: Seq<char>, radix: nat, max: nat) -> Option<nat> {
    let digits = if s.len() > 0 && s[0] == '+' {
        s.drop_first()
    } else {
        s
    };
    match digits_value(digits, radix) {
        Some(value) if digits.len() > 0 && value <= max => Some(value),
        _ => None,
    }
}

/// What a character is worth as a digit.
fn digit_of(c: char, radix: u32) -> (r: Option<u32>)
    requires
        radix <= 36,
    ensures
        match r {
            Some(value) => digit_value(c, radix as nat) == Some(value as nat) && value < radix,
            None => digit_value(c, radix as nat) is None,
        },
{
    let n: u32 = c as u32;
    let value: u32 = if 48 <= n && n <= 57 {
        n - 48
    } else if 97 <= n && n <= 122 {
        n - 97 + 10
    } else if 65 <= n && n <= 90 {
        n - 65 + 10
    } else {
        radix
    };
    if value < radix {
        Some(value)
    } else {
        None
    }
}

proof fn lemma_digits_grow(s: Seq<char>, i: int, radix: nat)
    requires
        0 <= i <= s.len(),
        radix >= 1,
    ensures
        digits_value(s, radix) matches Some(whole) ==> (digits_value(s.take(i), radix) matches Some(
            part,
        ) && part <= whole),
    decreases s.len(),
{
    if i == s.len() {
        assert(s.take(i) =~= s);
    } else {
        let shorter = s.drop_last();
        lemma_digits_grow(shorter, i, radix);
        assert(shorter.take(i) =~= s.take(i));
        if let (Some(high), Some(low)) = (digits_value(shorter, radix), digit_value(s.last(), radix)) {
            assert(high <= high * radix + low) by (nonlinear_arith)
                requires
                    radix >= 1,
                    high >= 0,
                    low >= 0,
            ;
        }
    }
}

/// The number that a text stands for.
pub fn parse_number(s: &str, radix: u32, max: u32) -> (r: Option<u32>)
    requires
        2 <= radix <= 36,
    ensures
        match r {
            Some(value) => number_value(s@, radix as nat, max as nat) == Some(value as nat),
            None => number_value(s@, radix as nat, max as nat) is None,
        },
{
    let chars = chars_of(s);
    let from: usize = if chars.len() > 0 && chars[0] == '+' {
        1
    } else {
        0
    };
    let ghost digits = chars@.skip(from as int);
    assert(from == 0 ==> digits =~= s@);
    assert(from == 1 ==> digits =~= s@.drop_first());
    if from == chars.len() {
        return None;
    }
    let mut value: u64 = 0;
    let mut i: usize = from;
    assert(digits.take(0) =~= Seq::<char>::empty());
    while i < chars.len()
        invariant
            2 <= radix <= 36,
            from <= i <= chars.len(),
            digits == chars@.skip(from as int),
            digits == (if s@.len() > 0 && s@[0] == '+' {
                s@.drop_first()
            } else {
                s@
            }),
            digits_value(digits.take(i - from), radix as nat) == Some(value as nat),
            value <= max,
        decreases chars.len() - i,
    {
        let ghost next = digits.take(i - from + 1);
        assert(next.drop_last() =~= digits.take(i - from));
        assert(next.last() == chars@[i as int]);
        proof {
            lemma_digits_grow(digits, i - from + 1, radix as nat);
        }
        match digit_of(chars[i], radix) {
            None => {
                return None;
            },
            Some(low) => {
                assert(value * radix <= 0xffff_ffff * 36) by (nonlinear_arith)
                    requires
                        value <= 0xffff_ffff,
                        radix <= 36,
                ;
                value = value * radix as u64 + low as u64;
                if value > max as u64 {
                    return None;
                }
            },
        }
        i += 1;
    }
    assert(digits.take(digits.len() as int) =~= digits);
    Some(value as u32)
}

proof fn lemma_decimal_digits(n: nat)
    ensures
        digits_value(decimal_text(n), 10) == Some(n),
        decimal_text(n).len() > 0,
        decimal_text(n)[0] != '+',
    decreases n,
{
    let text = decimal_text(n);
    let last = (n % 10) as nat;
    assert(digit_value(digit(last), 10) == Some(last));
    if n < 10 {
        assert(text.drop_last() =~= Seq::<char>::empty());
        assert(digits_value(Seq::<char>::empty(), 10) == Some(0nat));
    } else {
        lemma_decimal_digits(n / 10);
        assert(text.drop_last() =~= decimal_text(n / 10));
        assert(text[0] == decimal_text(n / 10)[0]);
    }
}

/// A number that is written in decimal is read back as it was.
pub proof fn law_decimal_round_trip(n: nat, max: nat)
    requires
        n <= max,
    ensures
        number_value(decimal_text(n), 10, max) == Some(n),
{
    lemma_decimal_digits(n);
}

} // verus!
