//! Places in a YAML source, in bytes, and as an editor counts them.
use vstd::prelude::*;
use vstd::string::*;
use vstd::utf8::*;

use crate::text::chars_of;

verus! {

/// A half-open range of bytes of the source.
#[derive(Clone, Copy, Debug, Eq, PartialEq, Structural)]
pub struct SourceRange {
    pub start: usize,
    pub end: usize,
}

/// A place that the YAML scanner reports.
#[derive(Clone, Copy, Debug, Eq, PartialEq, Structural)]
pub struct Mark {
    /// The offset in bytes, where the scanner knows it.
    pub byte_offset: Option<usize>,
    /// The offset in characters.
    pub index: usize,
    /// The line, counted from one.
    pub line: usize,
    /// The column, counted from zero.
    pub col: usize,
}

impl Mark {
    /// The place with the given offsets, line and column.
    pub fn new(byte_offset: Option<usize>, index: usize, line: usize, col: usize) -> (r: Mark)
        ensures
            r == (Mark { byte_offset, index, line, col }),
    {
        Mark { byte_offset, index, line, col }
    }
}

/// What lies between two places.
#[derive(Clone, Copy, Debug, Eq, PartialEq, Structural)]
pub struct Span {
    pub start: Mark,
    pub end: Mark,
}

impl Span {
    /// Whether no character lies between the two places.
    pub fn is_empty(&self) -> (r: bool)
        ensures
            r == (self.start.index == self.end.index),
    {
        self.start.index == self.end.index
    }
}

/// Where a typed value was found, as the deserializer reports it.
#[derive(Clone, Copy, Debug, Eq, PartialEq, Structural)]
pub struct Location {
    pub byte_offset: Option<u64>,
    pub byte_len: Option<u64>,
    /// The offset in characters.
    pub offset: u64,
    /// The length in characters.
    pub len: u64,
}

/// A place as JavaScript counts it: UTF-16 code units from the start, and line and column from one.
#[derive(Clone, Copy, Debug, Eq, PartialEq, Structural)]
pub struct SourcePosition {
    pub offset: u32,
    pub line: u32,
    pub column: u32,
}

/// The number of bytes of a text in UTF-8.
pub open spec fn byte_len(s: Seq<char>) -> nat {
    encode_utf8(s).len()
}

/// The characters of `s` that lie before the byte offset `at`.
pub open spec fn text_before(s: Seq<char>, at: int) -> Seq<char> {
    decode_utf8(encode_utf8(s).subrange(0, at))
}

/// The characters of `s` that lie from the byte offset `at` on.
pub open spec fn text_from(s: Seq<char>, at: int) -> Seq<char> {
    decode_utf8(encode_utf8(s).subrange(at, byte_len(s) as int))
}

/// The number of UTF-16 code units of a character.
pub open spec fn utf16_units(c: char) -> nat {
    if (c as u32) < 0x1_0000 {
        1
    } else {
        2
    }
}

/// The number of UTF-16 code units of a text.
pub open spec fn utf16_len(s: Seq<char>) -> nat
    decreases s.len(),
{
    if s.len() == 0 {
        0
    } else {
        utf16_len(s.drop_last()) + utf16_units(s.last())
    }
}

/// Whether the last character of `s` ends a line: a carriage return, or a line feed that does not
/// belong to the carriage return before it.
pub open spec fn ends_line(s: Seq<char>) -> bool {
    &&& s.len() > 0
    &&& s.last() == '\r' || (s.last() == '\n' && !(s.len() > 1 && s[s.len() - 2] == '\r'))
}

/// The number of lines that end in `s`.
pub open spec fn line_ends(s: Seq<char>) -> nat
    decreases s.len(),
{
    if s.len() == 0 {
        0
    } else {
        line_ends(s.drop_last()) + if ends_line(s) {
            1nat
        } else {
            0nat
        }
    }
}

/// What follows the last carriage return or line feed.
pub open spec fn last_line(s: Seq<char>) -> Seq<char>
    decreases s.len(),
{
    if s.len() == 0 || s.last() == '\r' || s.last() == '\n' {
        Seq::empty()
    } else {
        last_line(s.drop_last()).push(s.last())
    }
}

/// A number, or the largest `u32` where it does not fit.
pub open spec fn saturated(n: nat) -> u32 {
    if n <= u32::MAX {
        n as u32
    } else {
        u32::MAX
    }
}

/// The place behind a text.
pub open spec fn position_after(s: Seq<char>) -> SourcePosition {
    SourcePosition {
        offset: saturated(utf16_len(s)),
        line: saturated(1 + line_ends(s)),
        column: saturated(1 + utf16_len(last_line(s))),
    }
}

/// Encoding goes character by character.
pub proof fn lemma_encode_concat(a: Seq<char>, b: Seq<char>)
    ensures
        encode_utf8(a + b) == encode_utf8(a) + encode_utf8(b),
    decreases a.len(),
{
    if a.len() == 0 {
        assert(a + b =~= b);
        assert(encode_utf8(a) + encode_utf8(b) =~= encode_utf8(b));
    } else {
        lemma_encode_concat(a.drop_first(), b);
        assert((a + b).drop_first() =~= a.drop_first() + b);
        assert(encode_utf8(a + b) =~= encode_utf8(a) + encode_utf8(b));
    }
}

proof fn lemma_encode_one(c: char)
    ensures
        encode_utf8(seq![c]) == encode_scalar(c as u32),
{
    reveal_with_fuel(encode_utf8, 2);
    assert(seq![c].drop_first() =~= Seq::<char>::empty());
    assert(encode_utf8(seq![c]) =~= encode_scalar(c as u32));
}

/// One more character adds its bytes.
pub proof fn lemma_byte_len_step(s: Seq<char>, i: int)
    requires
        0 <= i < s.len(),
    ensures
        byte_len(s.take(i + 1)) == byte_len(s.take(i)) + encode_scalar(s[i] as u32).len(),
        byte_len(s.take(i + 1)) <= byte_len(s),
{
    assert(s.take(i + 1) =~= s.take(i) + seq![s[i]]);
    lemma_encode_concat(s.take(i), seq![s[i]]);
    lemma_encode_one(s[i]);
    assert(s =~= s.take(i + 1) + s.skip(i + 1));
    lemma_encode_concat(s.take(i + 1), s.skip(i + 1));
}

proof fn lemma_take_boundary(s: Seq<char>, i: int)
    requires
        0 <= i <= s.len(),
    ensures
        is_char_boundary(encode_utf8(s), byte_len(s.take(i)) as int),
        byte_len(s.take(i)) <= byte_len(s),
    decreases i,
{
    broadcast use encode_utf8_valid_utf8;

    let bytes = encode_utf8(s);
    assert(s =~= s.take(i) + s.skip(i));
    lemma_encode_concat(s.take(i), s.skip(i));
    if i == 0 {
        assert(s.take(0) =~= Seq::<char>::empty());
    } else {
        encode_utf8_first_scalar(s);
        assert(pop_first_scalar(bytes) =~= encode_utf8(s.drop_first()));
        lemma_take_boundary(s.drop_first(), i - 1);
        assert(s.take(i) =~= seq![s[0]] + s.drop_first().take(i - 1));
        lemma_encode_concat(seq![s[0]], s.drop_first().take(i - 1));
        lemma_encode_one(s[0]);
    }
}

/// The character at `i` stands behind the bytes of those before it.
pub proof fn lemma_text_at(s: Seq<char>, i: int)
    requires
        0 <= i <= s.len(),
    ensures
        is_char_boundary(encode_utf8(s), byte_len(s.take(i)) as int),
        byte_len(s.take(i)) <= byte_len(s),
        text_before(s, byte_len(s.take(i)) as int) == s.take(i),
        text_from(s, byte_len(s.take(i)) as int) == s.skip(i),
{
    lemma_take_boundary(s, i);
    assert(s =~= s.take(i) + s.skip(i));
    lemma_encode_concat(s.take(i), s.skip(i));
    let n = byte_len(s.take(i)) as int;
    assert(encode_utf8(s).subrange(0, n) =~= encode_utf8(s.take(i)));
    assert(encode_utf8(s).subrange(n, byte_len(s) as int) =~= encode_utf8(s.skip(i)));
    encode_utf8_decode_utf8(s.take(i));
    encode_utf8_decode_utf8(s.skip(i));
}

/// The number of bytes of a character in UTF-8.
fn utf8_units(c: char) -> (r: usize)
    ensures
        r == encode_scalar(c as u32).len(),
        1 <= r <= 4,
{
    let n: u32 = c as u32;
    proof {
        char_is_scalar(c);
    }
    if n < 0x80 {
        1
    } else if n < 0x800 {
        2
    } else if n < 0x1_0000 {
        3
    } else {
        4
    }
}

/// The byte offset of the character at `offset`, the end of the text counted as a place too.
pub fn char_offset_to_byte(input: &str, offset: usize) -> (r: Option<usize>)
    ensures
        r == if offset <= input@.len() {
            Some(byte_len(input@.take(offset as int)) as usize)
        } else {
            None::<usize>
        },
        offset <= input@.len() ==> byte_len(input@.take(offset as int)) <= usize::MAX,
{
    let bytes = input.as_bytes();
    let total: usize = bytes.len();
    assert(total == byte_len(input@));
    let chars = chars_of(input);
    if offset > chars.len() {
        return None;
    }
    let mut at: usize = 0;
    let mut i: usize = 0;
    assert(input@.take(0) =~= Seq::<char>::empty());
    while i < offset
        invariant
            i <= offset <= chars.len(),
            chars@ == input@,
            total == byte_len(input@),
            at == byte_len(input@.take(i as int)),
        decreases offset - i,
    {
        proof {
            lemma_byte_len_step(input@, i as int);
        }
        at += utf8_units(chars[i]);
        i += 1;
    }
    Some(at)
}

/// The byte offset of a place: the one that the scanner knows, where it is one of this text; else
/// that of its character; else the end.
pub open spec fn mark_offset(input: Seq<char>, mark: Mark) -> int {
    match mark.byte_offset {
        Some(at) if at <= byte_len(input) && is_char_boundary(encode_utf8(input), at as int) => at as int,
        _ => if mark.index <= input.len() {
            byte_len(input.take(mark.index as int)) as int
        } else {
            byte_len(input) as int
        },
    }
}

/// A place lies in the text, between two characters.
pub proof fn lemma_mark_offset(input: Seq<char>, mark: Mark)
    ensures
        0 <= mark_offset(input, mark) <= byte_len(input),
        is_char_boundary(encode_utf8(input), mark_offset(input, mark)),
{
    broadcast use encode_utf8_valid_utf8;

    is_char_boundary_start_end_of_seq(encode_utf8(input));
    if mark.index <= input.len() {
        lemma_take_boundary(input, mark.index as int);
    }
}

/// The byte offset of a place.
pub fn marker_byte_offset(input: &str, mark: &Mark) -> (r: usize)
    ensures
        r == mark_offset(input@, *mark),
{
    let bytes = input.as_bytes();
    let total: usize = bytes.len();
    assert(total == byte_len(input@));
    match mark.byte_offset {
        Some(at) => {
            if at <= total && input.is_char_boundary(at) {
                return at;
            }
        },
        None => {},
    }
    match char_offset_to_byte(input, mark.index) {
        Some(at) => at,
        None => total,
    }
}

/// The range between two places.
pub open spec fn span_range(input: Seq<char>, span: Span) -> SourceRange {
    SourceRange {
        start: mark_offset(input, span.start) as usize,
        end: mark_offset(input, span.end) as usize,
    }
}

/// The range of the character at a place, which is empty at the end of the text.
pub open spec fn mark_range(input: Seq<char>, mark: Mark) -> SourceRange {
    let start = mark_offset(input, mark);
    let rest = text_from(input, start);
    SourceRange {
        start: start as usize,
        end: (start + if rest.len() == 0 {
            0
        } else {
            encode_scalar(rest[0] as u32).len() as int
        }) as usize,
    }
}

/// The text behind a byte order mark.
pub open spec fn without_bom(s: Seq<char>) -> Seq<char> {
    if s.len() > 0 && s[0] == '\u{feff}' {
        s.skip(1)
    } else {
        s
    }
}

/// The bytes that a deserializer's location covers, counted without the byte order mark.
pub open spec fn location_bytes(source: Seq<char>, location: Location) -> Option<(int, int)> {
    match (location.byte_offset, location.byte_len) {
        (Some(at), Some(n)) => if at + n <= usize::MAX {
            Some((at as int, at + n))
        } else {
            None
        },
        _ => if location.offset + location.len <= u64::MAX && location.offset + location.len
            <= source.len() {
            Some(
                (
                    byte_len(source.take(location.offset as int)) as int,
                    byte_len(source.take(location.offset + location.len)) as int,
                ),
            )
        } else {
            None
        },
    }
}

/// The range that a deserializer's location covers, where it lies in the text.
pub open spec fn location_range(input: Seq<char>, location: Location) -> Option<SourceRange> {
    let source = without_bom(input);
    let skipped = byte_len(input) - byte_len(source);
    match location_bytes(source, location) {
        Some((start, end)) => if end <= byte_len(source) {
            Some(SourceRange { start: (start + skipped) as usize, end: (end + skipped) as usize })
        } else {
            None
        },
        None => None,
    }
}

/// Whether a range lies in the text, between characters.
pub open spec fn valid_range(input: Seq<char>, range: SourceRange) -> bool {
    &&& range.start <= byte_len(input)
    &&& range.end <= byte_len(input)
    &&& is_char_boundary(encode_utf8(input), range.start as int)
    &&& is_char_boundary(encode_utf8(input), range.end as int)
}

/// Whether a range lies in the text, between characters.
pub fn is_valid_range(input: &str, range: SourceRange) -> (r: bool)
    ensures
        r == valid_range(input@, range),
{
    let bytes = input.as_bytes();
    let total: usize = bytes.len();
    assert(total == byte_len(input@));
    range.start <= total && range.end <= total && input.is_char_boundary(range.start)
        && input.is_char_boundary(range.end)
}

impl SourceRange {
    /// The range between two places.
    pub fn from_span(input: &str, span: &Span) -> (r: SourceRange)
        ensures
            r == span_range(input@, *span),
    {
        SourceRange {
            start: marker_byte_offset(input, &span.start),
            end: marker_byte_offset(input, &span.end),
        }
    }

    /// The range of the character at a place.
    pub fn at_marker(input: &str, mark: &Mark) -> (r: SourceRange)
        ensures
            r == mark_range(input@, *mark),
    {
        broadcast use encode_utf8_valid_utf8;

        let start: usize = marker_byte_offset(input, mark);
        proof {
            lemma_mark_offset(input@, *mark);
        }
        let bytes = input.as_bytes();
        let total: usize = bytes.len();
        assert(total == byte_len(input@));
        let (before, rest) = input.split_at(start);
        proof {
            encode_utf8_decode_utf8(rest@);
            encode_utf8_decode_utf8(before@);
        }
        assert(rest@ == text_from(input@, start as int));
        let chars = chars_of(rest);
        let end: usize = if chars.len() == 0 {
            start
        } else {
            proof {
                lemma_byte_len_step(rest@, 0);
                assert(byte_len(rest@) == total - start);
                assert(rest@.take(0) =~= Seq::<char>::empty());
            }
            start + utf8_units(chars[0])
        };
        SourceRange { start, end }
    }

    /// The range that a deserializer's location covers, where it lies in the text.
    pub fn from_location(input: &str, location: Location) -> (r: Option<SourceRange>)
        ensures
            r == location_range(input@, location),
    {
        let all = input.as_bytes();
        let all_len: usize = all.len();
        assert(all_len == byte_len(input@));
        let n: usize = input.unicode_len();
        let has_bom = n > 0 && input.get_char(0) == '\u{feff}';
        let source = if has_bom {
            input.substring_char(1, n)
        } else {
            input
        };
        assert(source@ == without_bom(input@)) by {
            if has_bom {
                assert(input@.subrange(1, n as int) =~= input@.skip(1));
            }
        }
        let source_bytes = source.as_bytes();
        let source_len: usize = source_bytes.len();
        assert(source_len == byte_len(source@));
        proof {
            if has_bom {
                assert(input@ =~= input@.take(1) + input@.skip(1));
                lemma_encode_concat(input@.take(1), input@.skip(1));
            }
        }
        let skipped: usize = all_len - source_len;
        let (start, end): (usize, usize) = match (location.byte_offset, location.byte_len) {
            (Some(at), Some(len)) => {
                if at > usize::MAX as u64 || len > usize::MAX as u64 {
                    return None;
                }
                let start: usize = at as usize;
                match start.checked_add(len as usize) {
                    Some(end) => (start, end),
                    None => {
                        return None;
                    },
                }
            },
            _ => {
                let past: u64 = match location.offset.checked_add(location.len) {
                    Some(past) => past,
                    None => {
                        return None;
                    },
                };
                let count: usize = source.unicode_len();
                if location.offset > usize::MAX as u64 || past > usize::MAX as u64 {
                    return None;
                }
                let start: usize = match char_offset_to_byte(source, location.offset as usize) {
                    Some(start) => start,
                    None => {
                        return None;
                    },
                };
                let end: usize = match char_offset_to_byte(source, past as usize) {
                    Some(end) => end,
                    None => {
                        return None;
                    },
                };
                proof {
                    lemma_byte_len_monotone(source@, location.offset as int, past as int);
                }
                (start, end)
            },
        };
        if end <= source_len {
            Some(SourceRange { start: start + skipped, end: end + skipped })
        } else {
            None
        }
    }
}

proof fn lemma_byte_len_monotone(s: Seq<char>, i: int, j: int)
    requires
        0 <= i <= j <= s.len(),
    ensures
        byte_len(s.take(i)) <= byte_len(s.take(j)),
{
    let t = s.take(j);
    assert(t =~= t.take(i) + t.skip(i));
    lemma_encode_concat(t.take(i), t.skip(i));
    assert(t.take(i) =~= s.take(i));
}

/// The place at a byte offset, as JavaScript counts it.
///
/// A carriage return, a line feed, and the two together each end one line.
pub fn source_position(input: &str, byte_offset: usize) -> (r: SourcePosition)
    requires
        byte_offset <= byte_len(input@),
        is_char_boundary(encode_utf8(input@), byte_offset as int),
    ensures
        r == position_after(text_before(input@, byte_offset as int)),
{
    broadcast use encode_utf8_valid_utf8;

    let (head, _tail) = input.split_at(byte_offset);
    proof {
        encode_utf8_decode_utf8(head@);
    }
    assert(head@ == text_before(input@, byte_offset as int));
    let chars = chars_of(head);
    let mut offset: u32 = 0;
    let mut line: u32 = 1;
    let mut column: u32 = 1;
    let mut previous_was_carriage_return = false;
    let mut i: usize = 0;
    while i < chars.len()
        invariant
            i <= chars.len(),
            offset == saturated(utf16_len(chars@.take(i as int))),
            line == saturated(1 + line_ends(chars@.take(i as int))),
            column == saturated(1 + utf16_len(last_line(chars@.take(i as int)))),
            previous_was_carriage_return == (i > 0 && chars@[i - 1] == '\r'),
        decreases chars.len() - i,
    {
        let character = chars[i];
        proof {
            let t = chars@.take(i + 1);
            assert(t.drop_last() =~= chars@.take(i as int));
            assert(t.last() == character);
            let prior = last_line(chars@.take(i as int));
            assert(prior.push(character).drop_last() =~= prior);
            if i > 0 {
                assert(t[t.len() - 2] == chars@[i - 1]);
            }
            lemma_last_line_after_break(chars@.take(i as int));
        }
        let width: u32 = if (character as u32) < 0x1_0000 {
            1
        } else {
            2
        };
        offset = offset.saturating_add(width);
        if character == '\r' {
            line = line.saturating_add(1);
            column = 1;
        } else if character == '\n' {
            if !previous_was_carriage_return {
                line = line.saturating_add(1);
                column = 1;
            }
        } else {
            column = column.saturating_add(width);
        }
        previous_was_carriage_return = character == '\r';
        i += 1;
    }
    assert(chars@.take(chars@.len() as int) =~= chars@);
    SourcePosition { offset, line, column }
}

proof fn lemma_last_line_after_break(s: Seq<char>)
    ensures
        s.len() > 0 && s.last() == '\r' ==> last_line(s) == Seq::<char>::empty(),
        utf16_len(Seq::<char>::empty()) == 0,
{
}

} // verus!
