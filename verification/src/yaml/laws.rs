//! What holds of every document.
use vstd::prelude::*;
use vstd::utf8::*;

use super::error::{end_error, fault_error, span_error, ErrorView};
use super::failsafe::{
    document_spec, entries_spec, items_spec, next_spec, node_spec, significant, State, MAX_DEPTH,
    MAX_NODES,
};
use super::parse::{value_spec, YamlSchema};
use super::position::{
    byte_len, last_line, lemma_mark_offset, lemma_text_at, line_ends, mark_offset, position_after,
    saturated, text_from, utf16_len, valid_range, Mark, SourcePosition, Span,
};
use super::scan::{yaml_items, EventKind, FaultKind, ScanItem};
use super::value::{has_key, key_text, keys_ascend, lemma_with_entry, rank, with_entry, Tree};

verus! {

/// Whether a value has texts for scalars, and no key twice in one mapping.
pub open spec fn only_texts(tree: Tree) -> bool
    decreases tree,
{
    match tree {
        Tree::Text(_) => true,
        Tree::List(items) => forall|i: int|
            0 <= i < items.len() ==> only_texts(#[trigger] items[i]),
        Tree::Mapping(entries) => keys_ascend(entries) && forall|i: int|
            0 <= i < entries.len() ==> only_texts((#[trigger] entries[i]).1),
        _ => false,
    }
}

/// The number of values in a value, itself counted.
pub open spec fn tree_nodes(tree: Tree) -> nat
    decreases tree,
{
    match tree {
        Tree::List(items) => 1 + list_nodes(items),
        Tree::Mapping(entries) => 1 + entry_nodes(entries),
        _ => 1,
    }
}

/// The number of values in a list.
pub open spec fn list_nodes(items: Seq<Tree>) -> nat
    decreases items,
{
    if items.len() == 0 {
        0
    } else {
        list_nodes(items.drop_last()) + tree_nodes(items.last())
    }
}

/// The number of values in the entries of a mapping.
pub open spec fn entry_nodes(entries: Seq<(Seq<char>, Tree)>) -> nat
    decreases entries,
{
    if entries.len() == 0 {
        0
    } else {
        entry_nodes(entries.drop_last()) + tree_nodes(entries.last().1)
    }
}

proof fn lemma_entry_nodes_insert(entries: Seq<(Seq<char>, Tree)>, at: int, entry: (Seq<char>, Tree))
    requires
        0 <= at <= entries.len(),
    ensures
        entry_nodes(entries.insert(at, entry)) == entry_nodes(entries) + tree_nodes(entry.1),
    decreases entries.len(),
{
    let new = entries.insert(at, entry);
    if at == entries.len() {
        assert(new.drop_last() =~= entries);
    } else {
        assert(new.drop_last() =~= entries.drop_last().insert(at, entry));
        assert(new.last() == entries.last());
        lemma_entry_nodes_insert(entries.drop_last(), at, entry);
    }
}

/// Whether an error says where it is, between two characters of the text.
pub open spec fn located(input: Seq<char>, error: ErrorView) -> bool {
    error.range matches Some(range) && valid_range(input, range)
}

proof fn lemma_span_located(input: Seq<char>, message: Seq<char>, code: Seq<char>, span: Span)
    requires
        byte_len(input) <= usize::MAX,
    ensures
        located(input, span_error(input, message, code, span)),
{
    lemma_mark_offset(input, span.start);
    lemma_mark_offset(input, span.end);
}

proof fn lemma_end_located(input: Seq<char>, message: Seq<char>)
    requires
        byte_len(input) <= usize::MAX,
    ensures
        located(input, end_error(input, message)),
{
    encode_utf8_valid_utf8(input);
    is_char_boundary_start_end_of_seq(encode_utf8(input));
}

/// Every place between two characters is the end of a run of characters from the start.
pub proof fn lemma_boundary_is_take(input: Seq<char>, at: int) -> (i: int)
    requires
        0 <= at <= byte_len(input),
        is_char_boundary(encode_utf8(input), at),
    ensures
        0 <= i <= input.len(),
        at == byte_len(input.take(i)),
        text_from(input, at) == input.skip(i),
{
    let bytes = encode_utf8(input);
    let before = bytes.subrange(0, at);
    let after = bytes.subrange(at, bytes.len() as int);
    encode_utf8_valid_utf8(input);
    valid_utf8_split(bytes, at);
    decode_utf8_split(bytes, at);
    encode_utf8_decode_utf8(input);
    let p = decode_utf8(before);
    let q = decode_utf8(after);
    assert(input == p + q);
    assert(input.take(p.len() as int) =~= p);
    assert(input.skip(p.len() as int) =~= q);
    decode_utf8_encode_utf8(before);
    p.len() as int
}

proof fn lemma_fault_located(input: Seq<char>, fault: FaultKind, at: Mark, message: Seq<char>)
    requires
        byte_len(input) <= usize::MAX,
    ensures
        located(input, fault_error(input, fault, at, message)),
{
    let start = mark_offset(input, at);
    lemma_mark_offset(input, at);
    let i = lemma_boundary_is_take(input, start);
    let rest = text_from(input, start);
    if rest.len() > 0 {
        super::position::lemma_byte_len_step(input, i);
        lemma_text_at(input, i + 1);
        assert(rest[0] == input[i]);
    }
}

/// What the parser keeps under the anchors: texts for scalars, and counts that cover the values.
pub open spec fn anchors_hold(anchors: Map<usize, (Tree, nat)>) -> bool {
    forall|anchor: usize| #[trigger]
        anchors.dom().contains(anchor) ==> only_texts(anchors[anchor].0) && tree_nodes(
            anchors[anchor].0,
        ) <= anchors[anchor].1
}

/// What the parser keeps between two nodes.
pub open spec fn state_holds(state: State) -> bool {
    anchors_hold(state.anchors) && state.nodes <= MAX_NODES
}

/// What holds between two nodes holds at the start, before anything is read.
pub proof fn law_failsafe_start(items: Seq<ScanItem>)
    ensures
        state_holds(State { rest: items, anchors: Map::empty(), nodes: 0 }),
{
}

/// A node of the failsafe schema has texts for scalars and no key twice in one mapping, and its values
/// are counted, aliases as what they stand for, up to the limit and no further. Nothing is read at the
/// depth limit or below it. A node that does not parse says where it is wrong, between two characters
/// of the text.
pub proof fn law_failsafe_node(input: Seq<char>, state: State, depth: nat)
    requires
        byte_len(input) <= usize::MAX,
        state_holds(state),
    ensures
        next_spec(input, state.rest) is Ok && depth >= MAX_DEPTH ==> match node_spec(
            input,
            state,
            depth,
        ) {
            Ok(_) => false,
            Err(error) => error.code == "RESOURCE_EXHAUSTION"@,
        },
        match node_spec(input, state, depth) {
            Ok((tree, _, next)) => {
                &&& only_texts(tree)
                &&& state.nodes + tree_nodes(tree) <= next.nodes
                &&& state_holds(next)
                &&& next.rest.len() < state.rest.len()
            },
            Err(error) => located(input, error),
        },
    decreases state.rest.len(), 0nat,
{
    lemma_next_located(input, state.rest);
    if let Ok((kind, span, shown)) = next_spec(input, state.rest) {
        assert forall|message: Seq<char>, code: Seq<char>| located(
            input,
            #[trigger] span_error(input, message, code, span),
        ) by {
            lemma_span_located(input, message, code, span);
        }
        if depth < MAX_DEPTH {
            match kind {
                EventKind::SequenceStart(_) => {
                    if let Ok(counted) = state.skip().count(input, 1, span) {
                        lemma_items(input, counted, depth, Seq::empty());
                    }
                },
                EventKind::MappingStart(_) => {
                    if let Ok(counted) = state.skip().count(input, 1, span) {
                        lemma_entries(input, counted, depth, Seq::empty());
                    }
                },
                _ => {},
            }
        }
    }
}

proof fn lemma_next_located(input: Seq<char>, rest: Seq<ScanItem>)
    requires
        byte_len(input) <= usize::MAX,
    ensures
        next_spec(input, rest) matches Err(error) ==> located(input, error),
{
    lemma_end_located(input, "unexpected end of YAML input"@);
    if rest.len() > 0 {
        if let ScanItem::Fault { fault, at, message } = rest[0] {
            lemma_fault_located(input, fault, at, message);
        }
    }
}

proof fn lemma_items(input: Seq<char>, state: State, depth: nat, items: Seq<Tree>)
    requires
        byte_len(input) <= usize::MAX,
        state_holds(state),
        forall|i: int| 0 <= i < items.len() ==> only_texts(#[trigger] items[i]),
    ensures
        match items_spec(input, state, depth, items) {
            Ok((all, next)) => {
                &&& forall|i: int| 0 <= i < all.len() ==> only_texts(#[trigger] all[i])
                &&& state.nodes + list_nodes(all) <= next.nodes + list_nodes(items)
                &&& state_holds(next)
                &&& next.rest.len() < state.rest.len()
            },
            Err(error) => located(input, error),
        },
    decreases state.rest.len(), 1nat,
{
    lemma_next_located(input, state.rest);
    match next_spec(input, state.rest) {
        Err(_) => {},
        Ok((EventKind::SequenceEnd, _, _)) => {},
        Ok(_) => {
            law_failsafe_node(input, state, depth + 1);
            if let Ok((tree, _, next)) = node_spec(input, state, depth + 1) {
                assert(items.push(tree).drop_last() =~= items);
                lemma_items(input, next, depth, items.push(tree));
            }
        },
    }
}

proof fn lemma_entries(input: Seq<char>, state: State, depth: nat, entries: Seq<(Seq<char>, Tree)>)
    requires
        byte_len(input) <= usize::MAX,
        state_holds(state),
        only_texts(Tree::Mapping(entries)),
    ensures
        match entries_spec(input, state, depth, entries) {
            Ok((all, next)) => {
                &&& only_texts(Tree::Mapping(all))
                &&& state.nodes + entry_nodes(all) <= next.nodes + entry_nodes(entries)
                &&& state_holds(next)
                &&& next.rest.len() < state.rest.len()
            },
            Err(error) => located(input, error),
        },
    decreases state.rest.len(), 1nat,
{
    lemma_next_located(input, state.rest);
    match next_spec(input, state.rest) {
        Err(_) => {},
        Ok((EventKind::MappingEnd, _, _)) => {},
        Ok(_) => {
            law_failsafe_node(input, state, depth + 1);
            if let Ok((key, span, between)) = node_spec(input, state, depth + 1) {
                let name = key_text(key);
                if has_key(entries, name) {
                    let error = super::failsafe::duplicate_error(input, name, span);
                    lemma_span_located(input, error.message, error.code, span);
                } else {
                    law_failsafe_node(input, between, depth + 1);
                    if let Ok((tree, _, next)) = node_spec(input, between, depth + 1) {
                        lemma_with_entry(entries, name, tree);
                        lemma_entry_nodes_insert(entries, rank(entries, name) as int, (name, tree));
                        let new = with_entry(entries, name, tree);
                        assert forall|i: int| 0 <= i < new.len() implies only_texts(
                            (#[trigger] new[i]).1,
                        ) by {
                            let at = rank(entries, name) as int;
                            if i < at {
                                assert(new[i] == entries[i]);
                            } else if i > at {
                                assert(new[i] == entries[i - 1]);
                            }
                        }
                        lemma_entries(input, next, depth, new);
                    }
                }
            }
        },
    }
}

/// A document of the failsafe schema that parses has texts for scalars, no key twice in one
/// mapping, and no more values than the limit, aliases counted as what they stand for. The one
/// exception is the empty stream, which is null. One that does not parse says where it is wrong,
/// between two characters of the text.
pub proof fn law_failsafe_document(input: Seq<char>, items: Seq<ScanItem>)
    requires
        byte_len(input) <= usize::MAX,
    ensures
        match document_spec(input, items) {
            Ok(tree) => tree == Tree::Null || (only_texts(tree) && tree_nodes(tree) <= MAX_NODES),
            Err(error) => located(input, error),
        },
{
    let start = State { rest: items, anchors: Map::empty(), nodes: 0 };
    lemma_next_located(input, start.rest);
    assert forall|message: Seq<char>, code: Seq<char>, span: Span| located(
        input,
        #[trigger] span_error(input, message, code, span),
    ) by {
        lemma_span_located(input, message, code, span);
    }
    if let Ok((EventKind::StreamStart, _, _)) = next_spec(input, start.rest) {
        lemma_next_located(input, start.skip().rest);
        if let Ok((EventKind::DocumentStart, _, _)) = next_spec(input, start.skip().rest) {
            law_failsafe_node(input, start.skip().skip(), 0);
            if let Ok((tree, _, end)) = node_spec(input, start.skip().skip(), 0) {
                lemma_next_located(input, end.rest);
                lemma_next_located(input, end.skip().rest);
                lemma_next_located(input, end.skip().skip().rest);
                lemma_end_located(input, "unexpected events after the YAML stream ended"@);
            }
        }
    }
}

/// Whatever is wrong with a document, in either schema, the error says where, between two characters
/// of the text.
pub proof fn law_located_errors(input: Seq<char>, schema: Option<YamlSchema>)
    requires
        byte_len(input) <= usize::MAX,
    ensures
        value_spec(input, schema) matches Err(error) ==> located(input, error),
{
    law_failsafe_document(input, significant(yaml_items(input)));
    lemma_end_located(input, Seq::empty());
}

proof fn lemma_same_line(before: Seq<char>, line: Seq<char>)
    requires
        forall|i: int| 0 <= i < line.len() ==> #[trigger] line[i] != '\r' && line[i] != '\n',
    ensures
        line_ends(before + line) == line_ends(before),
        last_line(before + line) == last_line(before) + line,
        utf16_len(before + line) == utf16_len(before) + utf16_len(line),
        utf16_len(last_line(before) + line) == utf16_len(last_line(before)) + utf16_len(line),
    decreases line.len(),
{
    if line.len() == 0 {
        assert(before + line =~= before);
        assert(last_line(before) + line =~= last_line(before));
    } else {
        let shorter = line.drop_last();
        lemma_same_line(before, shorter);
        assert((before + line).drop_last() =~= before + shorter);
        assert((last_line(before) + line).drop_last() =~= last_line(before) + shorter);
        assert((last_line(before) + shorter).push(line.last()) =~= last_line(before) + line);
        assert(line[line.len() - 1] == line.last());
    }
}

/// Characters that end no line move the place along its line, by their UTF-16 code units.
pub proof fn law_position_in_line(before: Seq<char>, line: Seq<char>)
    requires
        forall|i: int| 0 <= i < line.len() ==> #[trigger] line[i] != '\r' && line[i] != '\n',
    ensures
        position_after(before + line) == (SourcePosition {
            offset: saturated(utf16_len(before) + utf16_len(line)),
            line: position_after(before).line,
            column: saturated(1 + utf16_len(last_line(before)) + utf16_len(line)),
        }),
{
    lemma_same_line(before, line);
}

/// The first place of the line behind a text, `units` UTF-16 code units after it.
pub open spec fn next_line(before: Seq<char>, units: nat) -> SourcePosition {
    SourcePosition {
        offset: saturated(utf16_len(before) + units),
        line: saturated(2 + line_ends(before)),
        column: 1,
    }
}

/// A carriage return, a line feed, and the two together each end one line; the place behind them
/// is the first of the next.
pub proof fn law_position_line_end(before: Seq<char>)
    ensures
        position_after(before + seq!['\r']) == next_line(before, 1),
        position_after(before + seq!['\r', '\n']) == next_line(before, 2),
        (before.len() == 0 || before.last() != '\r') ==> position_after(before + seq!['\n'])
            == next_line(before, 1),
{
    let cr = before + seq!['\r'];
    let lf = before + seq!['\n'];
    let both = before + seq!['\r', '\n'];
    assert(cr.drop_last() =~= before);
    assert(lf.drop_last() =~= before);
    assert(both.drop_last() =~= cr);
    assert(both[both.len() - 2] == '\r');
    assert(before.len() > 0 ==> lf[lf.len() - 2] == before.last());
    assert(super::position::utf16_units('\r') == 1 && super::position::utf16_units('\n') == 1);
    assert(utf16_len(cr) == utf16_len(before) + 1);
    assert(utf16_len(Seq::<char>::empty()) == 0);
    assert(last_line(cr) =~= Seq::<char>::empty());
    assert(last_line(lf) =~= Seq::<char>::empty());
    assert(last_line(both) =~= Seq::<char>::empty());
    assert(line_ends(cr) == line_ends(before) + 1);
}

proof fn lemma_counts_grow(before: Seq<char>, after: Seq<char>)
    ensures
        utf16_len(before) <= utf16_len(before + after),
        line_ends(before) <= line_ends(before + after),
    decreases after.len(),
{
    if after.len() == 0 {
        assert(before + after =~= before);
    } else {
        lemma_counts_grow(before, after.drop_last());
        assert((before + after).drop_last() =~= before + after.drop_last());
    }
}

/// Places farther on in a text have no smaller offset and stand on no earlier line.
pub proof fn law_positions_ascend(before: Seq<char>, after: Seq<char>)
    ensures
        position_after(before).offset <= position_after(before + after).offset,
        position_after(before).line <= position_after(before + after).line,
{
    lemma_counts_grow(before, after);
}

} // verus!
