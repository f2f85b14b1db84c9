//! Places in a YAML source, the core schema, and what values are as keys.
use vstd::prelude::*;
use vstd::utf8::*;

use crate::error::ErrorSays;
use crate::text::{join_texts, quoted_text};
use crate::yaml::error::ParseError;
use crate::yaml::failsafe::{document_spec, significant};
use crate::yaml::laws::{
    law_position_in_line, law_position_line_end, lemma_boundary_is_take,
};
use crate::yaml::parse::{schema_of, value_spec, YamlSchema};
use crate::yaml::position::{
    byte_len, lemma_byte_len_step, lemma_encode_concat, lemma_mark_offset, lemma_text_at,
    location_range, mark_offset, mark_range, position_after, saturated, span_range, text_before, utf16_len,
    Location, Mark, SourcePosition, SourceRange, Span,
};
use crate::yaml::scan::{step_items, yaml_items, EventKind, ScanItem, ScanStep};
use crate::yaml::typed::{core_document, core_range, CoreFault, CoreFaultKind};
use crate::yaml::value::{key_text, Tree, YamlValue};

verus! {

/// The byte offset of a place is the one that the scanner knows, where that lies between two characters of
/// the text; else the text before it has as many characters as the scanner counted; else it is the end.
pub proof fn law_mark(input: Seq<char>, mark: Mark)
    ensures
        ({
            let known = mark.byte_offset matches Some(at) && at <= byte_len(input) && is_char_boundary(
                encode_utf8(input),
                at as int,
            );
            &&& known ==> mark_offset(input, mark) == mark.byte_offset.unwrap()
            &&& !known && mark.index <= input.len() ==> text_before(input, mark_offset(input, mark))
                == input.take(mark.index as int)
            &&& !known && mark.index > input.len() ==> mark_offset(input, mark) == byte_len(input)
        }),
{
    if mark.index <= input.len() {
        lemma_text_at(input, mark.index as int);
    }
}

/// The range of a span goes from its start to its end, and the range of a place covers the character there;
/// it is empty at the end of the text.
pub proof fn law_ranges(input: Seq<char>, span: Span, mark: Mark)
    requires
        byte_len(input) <= usize::MAX,
    ensures
        span_range(input, span).start == mark_offset(input, span.start),
        span_range(input, span).end == mark_offset(input, span.end),
        mark_range(input, mark).start == mark_offset(input, mark),
        ({
            let before = text_before(input, mark_range(input, mark).start as int);
            let covered = text_before(input, mark_range(input, mark).end as int);
            if before.len() < input.len() {
                covered == input.take(before.len() + 1int)
            } else {
                covered == input
            }
        }),
{
    lemma_mark_offset(input, span.start);
    lemma_mark_offset(input, span.end);
    lemma_mark_offset(input, mark);
    let start = mark_offset(input, mark);
    let i = lemma_boundary_is_take(input, start);
    lemma_text_at(input, i);
    assert(input.take(i).len() == i);
    if i < input.len() {
        lemma_byte_len_step(input, i);
        lemma_text_at(input, i + 1);
        assert(input.skip(i)[0] == input[i]);
    } else {
        assert(input.take(i) =~= input);
        assert(input.skip(i) =~= Seq::<char>::empty());
    }
}

/// The first place is that of no text: no code units, the first line and its first column.
pub proof fn law_first_position()
    ensures
        position_after(Seq::empty()) == (SourcePosition { offset: 0, line: 1, column: 1 }),
        utf16_len(Seq::empty()) == 0,
{
    reveal_with_fuel(utf16_len, 1);
    assert(crate::yaml::position::last_line(Seq::<char>::empty()) =~= Seq::<char>::empty());
}

/// A character of the basic plane is one code unit, and any other two.
pub proof fn law_code_units(text: Seq<char>, c: char)
    ensures
        utf16_len(text + seq![c]) == utf16_len(text) + if c as int <= 0xffff {
            1nat
        } else {
            2nat
        },
{
    assert((text + seq![c]).drop_last() =~= text);
}

/// The offset of a place counts code units, and a number that is too large is the largest that there is.
pub proof fn law_offset(text: Seq<char>, n: nat)
    ensures
        utf16_len(text) <= 0xFFFF_FFFF ==> position_after(text).offset == utf16_len(text),
        utf16_len(text) > 0xFFFF_FFFF ==> position_after(text).offset == 0xFFFF_FFFF,
        n <= 0xFFFF_FFFF ==> saturated(n) == n,
        n > 0xFFFF_FFFF ==> saturated(n) == 0xFFFF_FFFF,
{
}

/// A character that ends no line moves the place on by its code units, on the same line, as long as the
/// numbers are no larger than they can be.
pub proof fn law_position_step(before: Seq<char>, c: char)
    requires
        c != '\r',
        c != '\n',
        position_after(before).offset + 2 < u32::MAX,
        position_after(before).column + 2 < u32::MAX,
    ensures
        ({
            let units = if c as int <= 0xffff {
                1int
            } else {
                2
            };
            let at = position_after(before);
            let then = position_after(before + seq![c]);
            then.offset == at.offset + units && then.column == at.column + units && then.line == at.line
        }),
{
    assert(seq![c].drop_last() =~= Seq::<char>::empty());
    reveal_with_fuel(utf16_len, 2);
    law_position_in_line(before, seq![c]);
}

/// A line feed, a carriage return, and the two together as one, start the next line at its first column.
pub proof fn law_position_line(before: Seq<char>)
    requires
        position_after(before).offset + 2 < u32::MAX,
        position_after(before).line + 1 < u32::MAX,
    ensures
        ({
            let at = position_after(before);
            &&& position_after(before + seq!['\r']) == (SourcePosition {
                offset: (at.offset + 1) as u32,
                line: (at.line + 1) as u32,
                column: 1,
            })
            &&& position_after(before + seq!['\r', '\n']) == (SourcePosition {
                offset: (at.offset + 2) as u32,
                line: (at.line + 1) as u32,
                column: 1,
            })
            &&& (before.len() == 0 || before[before.len() - 1] != '\r') ==> position_after(
                before + seq!['\n'],
            ) == (SourcePosition {
                offset: (at.offset + 1) as u32,
                line: (at.line + 1) as u32,
                column: 1,
            })
        }),
{
    law_position_line_end(before);
}

/// Whether a range is the end of a text.
pub open spec fn is_end(input: Seq<char>, range: SourceRange) -> bool {
    range.start == byte_len(input) && range.end == byte_len(input)
}

/// An objection of the deserializer stands where its location says: behind the byte order mark, which does
/// not count, by bytes where those are known, else by characters. Where it says nothing, or nothing that lies
/// between characters of the text, the objection stands at the end.
#[verifier::rlimit(60)]
pub proof fn law_core_range(input: Seq<char>, mark: Seq<char>, source: Seq<char>, location: Location)
    requires
        byte_len(input) <= usize::MAX,
        input == mark + source,
        mark == seq!['\u{feff}'] || (mark.len() == 0 && (source.len() > 0 ==> source[0] != '\u{feff}')),
    ensures
        is_end(input, core_range(input, None)),
        ({
            let range = core_range(input, Some(location));
            match (location.byte_offset, location.byte_len) {
                (Some(at), Some(n)) => {
                    let start = byte_len(mark) + at;
                    let end = byte_len(mark) + at + n;
                    if end <= byte_len(input) && is_char_boundary(encode_utf8(input), start)
                        && is_char_boundary(encode_utf8(input), end) {
                        range.start == start && range.end == end
                    } else {
                        is_end(input, range)
                    }
                },
                _ => if location.offset + location.len <= source.len() && source.len() <= u64::MAX {
                    text_before(input, range.start as int) == mark + source.take(location.offset as int)
                        && text_before(input, range.end as int) == mark + source.take(
                        location.offset + location.len,
                    )
                } else if location.offset + location.len > source.len() {
                    is_end(input, range)
                } else {
                    true
                },
            }
        }),
{
    lemma_encode_concat(mark, source);
    assert(crate::yaml::position::without_bom(input) =~= source) by {
        if mark.len() == 0 {
            assert(input =~= source);
        } else {
            assert(input[0] == '\u{feff}');
            assert(input.skip(1) =~= source);
        }
    }
    if location.offset + location.len <= source.len() {
        let a = location.offset as int;
        let b = location.offset + location.len;
        let m = mark.len() as int;
        lemma_encode_concat(mark, source.take(a));
        lemma_encode_concat(mark, source.take(b));
        assert(input.take(m + a) =~= mark + source.take(a));
        assert(input.take(m + b) =~= mark + source.take(b));
        lemma_text_at(input, m + a);
        lemma_text_at(input, m + b);
        lemma_text_at(source, b);
    }
}

/// The range of a location covers the bytes that it tells of, behind the byte order mark; there is none where it
/// reaches past the text.
pub proof fn law_location_range(input: Seq<char>, mark: Seq<char>, source: Seq<char>, location: Location)
    requires
        byte_len(input) <= usize::MAX,
        input == mark + source,
        mark == seq!['\u{feff}'] || (mark.len() == 0 && (source.len() > 0 ==> source[0] != '\u{feff}')),
    ensures
        match (location.byte_offset, location.byte_len) {
            (Some(at), Some(n)) => match location_range(input, location) {
                Some(range) => range.start == byte_len(mark) + at && range.end == byte_len(mark) + at + n
                    && at + n <= byte_len(source),
                None => at + n > byte_len(source),
            },
            _ => location_range(input, location) is Some ==> location.offset + location.len <= source.len(),
        },
{
    lemma_encode_concat(mark, source);
    assert(crate::yaml::position::without_bom(input) =~= source) by {
        if mark.len() == 0 {
            assert(input =~= source);
        } else {
            assert(input[0] == '\u{feff}');
            assert(input.skip(1) =~= source);
        }
    }
}

/// A document of the core schema, which is the default, is what the deserializer makes of the text; what it
/// objects to is told in its words, with a code for its kind and with its place. A document of the failsafe
/// schema is what the events of the text make up, comments left out.
pub proof fn law_schemas(input: Seq<char>)
    ensures
        value_spec(input, None) == value_spec(input, Some(YamlSchema::Core)),
        value_spec(input, Some(YamlSchema::Failsafe)) == document_spec(
            input,
            significant(yaml_items(input)),
        ),
        match (core_document(input), value_spec(input, None)) {
            (Ok(tree), Ok(value)) => value == tree,
            (Err(fault), Err(error)) => {
                &&& error.message == fault.message
                &&& error.range == Some(core_range(input, fault.location))
                &&& fault.kind == CoreFaultKind::DuplicateMappingKey ==> error.code == "DUPLICATE_KEY"@
                &&& fault.kind == CoreFaultKind::MultipleDocuments ==> error.code == "MULTIPLE_DOCS"@
                &&& fault.kind == CoreFaultKind::UnknownAnchor ==> error.code == "BAD_ALIAS"@
                &&& fault.kind == CoreFaultKind::Budget ==> error.code == "RESOURCE_EXHAUSTION"@
                &&& fault.kind == CoreFaultKind::Other ==> error.code == "UNEXPECTED_TOKEN"@
            },
            _ => false,
        },
{
}

/// A schema is known by its name; without one it is the core schema; another name is refused.
pub proof fn law_schema_names(name: Seq<char>)
    ensures
        schema_of(None) == Ok::<YamlSchema, ErrorSays>(YamlSchema::Core),
        name == "core"@ ==> schema_of(Some(name)) == Ok::<YamlSchema, ErrorSays>(YamlSchema::Core),
        name == "failsafe"@ ==> schema_of(Some(name)) == Ok::<YamlSchema, ErrorSays>(
            YamlSchema::Failsafe,
        ),
        name != "core"@ && name != "failsafe"@ ==> schema_of(Some(name)) == Err::<YamlSchema, ErrorSays>(
            ErrorSays::Invalid("Invalid YAML schema "@ + quoted_text(name)),
        ),
{
    reveal_strlit("core");
    reveal_strlit("failsafe");
    assert("core"@.len() != "failsafe"@.len());
}

/// Where it is a key, a text is itself, and a truth value and a number are their texts; a list stands in
/// brackets with its items in order, and a mapping in braces with its keys before their values.
pub proof fn law_key_text(
    text: Seq<char>,
    items: Seq<Tree>,
    entries: Seq<(Seq<char>, Tree)>,
    item_texts: Seq<Seq<char>>,
    entry_texts: Seq<Seq<char>>,
)
    requires
        item_texts.len() == items.len(),
        forall|i: int| 0 <= i < items.len() ==> #[trigger] item_texts[i] == key_text(items[i]),
        entry_texts.len() == entries.len(),
        forall|i: int|
            0 <= i < entries.len() ==> #[trigger] entry_texts[i] == entries[i].0 + ": "@ + key_text(
                entries[i].1,
            ),
    ensures
        key_text(Tree::Text(text)) == text,
        key_text(Tree::Number(text)) == text,
        key_text(Tree::Null) == Seq::<char>::empty(),
        key_text(Tree::Bool(true)) == "true"@,
        key_text(Tree::Bool(false)) == "false"@,
        key_text(Tree::List(items)) == "[ "@ + join_texts(item_texts, ", "@) + " ]"@,
        key_text(Tree::Mapping(entries)) == "{ "@ + join_texts(entry_texts, ", "@) + " }"@,
{
    assert(crate::yaml::value::key_texts(items) =~= item_texts);
    assert(crate::yaml::value::entry_texts(entries) =~= entry_texts);
}

/// A value holds what it is made of: its text, or the values of its items and entries in order.
pub proof fn law_value_tree(
    text: String,
    truth: bool,
    items: Vec<YamlValue>,
    entries: Vec<(String, YamlValue)>,
)
    ensures
        YamlValue::Null.tree() == Tree::Null,
        YamlValue::Bool(truth).tree() == Tree::Bool(truth),
        YamlValue::Number(text).tree() == Tree::Number(text@),
        YamlValue::String(text).tree() == Tree::Text(text@),
        YamlValue::Array(items).tree() matches Tree::List(trees) && trees.len() == items@.len() && forall|
            i: int,
        |
            0 <= i < items@.len() ==> #[trigger] trees[i] == items@[i].tree(),
        YamlValue::Object(entries).tree() matches Tree::Mapping(trees) && trees.len() == entries@.len()
            && forall|i: int|
            0 <= i < entries@.len() ==> (#[trigger] trees[i]).0 == entries@[i].0@ && trees[i].1
                == entries@[i].1.tree(),
{
    let list = YamlValue::Array(items).tree()->List_0;
    assert forall|i: int| 0 <= i < items@.len() implies #[trigger] list[i] == items@[i].tree() by {}
    let mapping = YamlValue::Object(entries).tree()->Mapping_0;
    assert forall|i: int| 0 <= i < entries@.len() implies (#[trigger] mapping[i]).0 == entries@[i].0@
        && mapping[i].1 == entries@[i].1.tree() by {}
}

/// The items of a stream are what was handed out, each as it is and in order.
pub proof fn law_step_items(steps: Seq<ScanStep>, i: int)
    requires
        0 <= i < steps.len(),
    ensures
        step_items(steps).len() == steps.len(),
        match (steps[i], step_items(steps)[i]) {
            (ScanStep::Fault(found), ScanItem::Fault { fault, at, message }) => fault == found.kind && at
                == found.at && message == found.message@,
            (ScanStep::Event { kind, span, shown }, ScanItem::Event { kind: k, span: s, shown: t }) => s
                == span && t == shown@ && match (kind, k) {
                (EventKind::Scalar(text, plain, anchor), EventKind::Scalar(view, p, a)) => view == text@
                    && p == plain && a == anchor,
                (EventKind::Alias(anchor), EventKind::Alias(a)) => a == anchor,
                (EventKind::SequenceStart(anchor), EventKind::SequenceStart(a)) => a == anchor,
                (EventKind::MappingStart(anchor), EventKind::MappingStart(a)) => a == anchor,
                (EventKind::StreamStart, EventKind::StreamStart) => true,
                (EventKind::StreamEnd, EventKind::StreamEnd) => true,
                (EventKind::DocumentStart, EventKind::DocumentStart) => true,
                (EventKind::DocumentEnd, EventKind::DocumentEnd) => true,
                (EventKind::Comment, EventKind::Comment) => true,
                (EventKind::SequenceEnd, EventKind::SequenceEnd) => true,
                (EventKind::MappingEnd, EventKind::MappingEnd) => true,
                (EventKind::Other, EventKind::Other) => true,
                (EventKind::Fault, EventKind::Fault) => true,
                _ => false,
            },
            _ => false,
        },
{
}

/// An objection of the deserializer says its kind, its location and its message.
pub proof fn law_core_fault_view(fault: CoreFault)
    ensures
        fault@.kind == fault.kind,
        fault@.location == fault.location,
        fault@.message == fault.message@,
{
}

/// An error says its message, its code and its range.
pub proof fn law_parse_error_view(error: ParseError)
    ensures
        error@.message == error.message@,
        error@.code == error.code@,
        error@.range == error.range,
{
}

} // verus!
