//! YAML documents of the failsafe schema: what stands in the events stands in the value.
use vstd::prelude::*;

use crate::number::decimal_text;
use crate::yaml::error::ErrorView;
use crate::yaml::failsafe::{
    document_spec, entries_spec, items_spec, node_spec, significant, State, MAX_DEPTH, MAX_NODES,
};
use crate::yaml::laws::only_texts;
use crate::yaml::nesting::{entry_depth, list_depth, tree_depth};
use crate::yaml::position::{byte_len, mark_range, span_range, SourceRange};
use crate::yaml::scan::{item_kind, EventKind, FaultKind, ScanItem};
use crate::yaml::value::{has_key, key_text, keys_ascend, lemma_with_entry, rank, with_entry, Tree};

verus! {

/// The number of the anchor that an event bears, which is zero where it bears none.
pub open spec fn borne_anchor(kind: EventKind<Seq<char>>) -> usize {
    match kind {
        EventKind::Scalar(_, _, anchor) => anchor,
        EventKind::SequenceStart(anchor) => anchor,
        EventKind::MappingStart(anchor) => anchor,
        _ => 0,
    }
}

/// After a node with an anchor is read, be it a scalar, a sequence or a mapping, the value that is kept
/// under the anchor is the value of that node, with the number of nodes that it took. A node starts
/// where its first event stands, above the depth limit.
pub proof fn law_anchored_value(input: Seq<char>, state: State, depth: nat)
    ensures
        node_spec(input, state, depth) matches Ok((tree, span, next)) ==> {
            let anchor = borne_anchor(item_kind(state.rest[0]));
            &&& state.rest.len() > 0
            &&& state.rest[0] is Event
            &&& span == state.rest[0]->span
            &&& depth < 128
            &&& anchor != 0 ==> next.anchors.dom().contains(anchor) && next.anchors[anchor] == (
                tree,
                (next.nodes - state.nodes) as nat,
            )
        },
{
}

/// An alias yields the very value of the node that bears its anchor, and counts as many nodes as that
/// took.
pub proof fn law_alias_of_anchor(input: Seq<char>, state: State, depth: nat, alias_depth: nat)
    requires
        node_spec(input, state, depth) is Ok,
        borne_anchor(item_kind(state.rest[0])) != 0,
        alias_depth < 128,
    ensures
        node_spec(input, state, depth) matches Ok((tree, _, next)) ==> (next.rest.len() > 0
            && next.rest[0] is Event && next.rest[0]->kind == EventKind::<Seq<char>>::Alias(
            borne_anchor(item_kind(state.rest[0])),
        ) && state.nodes <= next.nodes && next.nodes + (next.nodes - state.nodes) <= 1_000_000
            ==> node_spec(input, next, alias_depth) == Ok::<(Tree, _, State), ErrorView>(
            (
                tree,
                next.rest[0]->span,
                State {
                    rest: next.rest.drop_first(),
                    anchors: next.anchors,
                    nodes: (next.nodes + (next.nodes - state.nodes)) as nat,
                },
            ),
        )),
{
    law_anchored_value(input, state, depth);
}

/// An alias yields what is kept under its anchor, and changes nothing that is kept; where nothing is
/// kept, it is refused at its place.
pub proof fn law_alias(input: Seq<char>, state: State, depth: nat)
    requires
        depth < 128,
        state.rest.len() > 0,
        state.rest[0] is Event,
        state.rest[0]->kind is Alias,
    ensures
        ({
            let anchor = state.rest[0]->kind->Alias_0;
            let span = state.rest[0]->span;
            let node = node_spec(input, state, depth);
            if !state.anchors.dom().contains(anchor) {
                node matches Err(error) && error.code == "BAD_ALIAS"@ && error.message
                    == "alias refers to unknown anchor "@ + decimal_text(anchor as nat) && error.range
                    == Some(span_range(input, span))
            } else if state.nodes + state.anchors[anchor].1 > 1_000_000 {
                node matches Err(error) && error.code == "RESOURCE_EXHAUSTION"@ && error.range == Some(
                    span_range(input, span),
                )
            } else {
                node == Ok::<(Tree, _, State), ErrorView>(
                    (
                        state.anchors[anchor].0,
                        span,
                        State {
                            rest: state.rest.drop_first(),
                            anchors: state.anchors,
                            nodes: state.nodes + state.anchors[anchor].1,
                        },
                    ),
                )
            }
        }),
{
}

/// A scalar stands for its text as it is; only a place left empty, a plain `~` that no character takes up,
/// stands for no text. It counts as one node, and is kept under its anchor and no other.
pub proof fn law_scalar(
    input: Seq<char>,
    state: State,
    depth: nat,
    text: Seq<char>,
    plain: bool,
    anchor: usize,
)
    requires
        depth < 128,
        state.nodes < 1_000_000,
        state.rest.len() > 0,
        state.rest[0] is Event,
        state.rest[0]->kind == EventKind::Scalar(text, plain, anchor),
    ensures
        match node_spec(input, state, depth) {
            Ok((tree, span, next)) => {
                let place = state.rest[0]->span;
                let left_empty = plain && text == seq!['~'] && place.start.index == place.end.index;
                &&& span == place
                &&& !left_empty ==> tree == Tree::Text(text)
                &&& left_empty ==> tree == Tree::Text(Seq::empty())
                &&& next.rest == state.rest.drop_first()
                &&& next.nodes == state.nodes + 1
                &&& anchor == 0 ==> next.anchors == state.anchors
                &&& anchor != 0 ==> next.anchors == state.anchors.insert(anchor, (tree, 1nat))
            },
            Err(_) => false,
        },
{
    reveal_strlit("~");
    assert("~"@ =~= seq!['~']);
}

/// Whether an event starts a value.
pub open spec fn starts_value(kind: EventKind<Seq<char>>) -> bool {
    kind is Scalar || kind is SequenceStart || kind is MappingStart || kind is Alias
}

/// Where no value can be read, the error says why and where: nothing is read at the depth limit, nor past
/// the node limit, nor where an event starts no value, nor where there is a fault or no event.
pub proof fn law_refused_node(input: Seq<char>, state: State, depth: nat)
    ensures
        state.rest.len() == 0 ==> (node_spec(input, state, depth) matches Err(error) && is_at_end(
            input,
            error,
            "unexpected end of YAML input"@,
        )),
        state.rest.len() > 0 ==> match state.rest[0] {
            ScanItem::Fault { fault, at, message } => (node_spec(input, state, depth) matches Err(error)
                && is_fault(input, error, fault, message) && error.range == Some(
                mark_range(input, at),
            )),
            ScanItem::Event { kind, span, shown } => {
                let node = node_spec(input, state, depth);
                &&& depth >= 128 ==> (node matches Err(error) && error.code == "RESOURCE_EXHAUSTION"@
                    && error.message == "YAML nesting exceeds the limit of 128"@ && error.range == Some(
                    span_range(input, span),
                ))
                &&& depth < 128 && !starts_value(kind) ==> (node matches Err(error) && error.code
                    == "UNEXPECTED_TOKEN"@ && error.message == "expected "@ + "YAML value"@ + ", found "@
                    + shown && error.range == Some(span_range(input, span)))
                &&& depth < 128 && starts_value(kind) && !(kind is Alias) && state.nodes >= 1_000_000
                    ==> (node matches Err(error) && error.code == "RESOURCE_EXHAUSTION"@ && error.message
                    == "YAML node count exceeds the limit of 1000000"@ && error.range == Some(
                    span_range(input, span),
                ))
            },
        },
{
}

/// Whether an error stands at the end of the text.
pub open spec fn is_at_end(input: Seq<char>, error: ErrorView, message: Seq<char>) -> bool {
    let end = byte_len(input) as usize;
    error.code == "UNEXPECTED_TOKEN"@ && error.message == message && error.range == Some(
        SourceRange { start: end, end },
    )
}

/// Whether an error tells of a fault of the scanner: with the code of its kind, and in its words.
pub open spec fn is_fault(
    input: Seq<char>,
    error: ErrorView,
    fault: FaultKind,
    message: Seq<char>,
) -> bool {
    &&& error.message == message
    &&& fault == FaultKind::UnknownAnchor ==> error.code == "BAD_ALIAS"@
    &&& fault == FaultKind::MultipleDocumentsUnsupported ==> error.code == "MULTIPLE_DOCS"@
    &&& fault == FaultKind::TooManyComments ==> error.code == "RESOURCE_EXHAUSTION"@
    &&& fault == FaultKind::AnchorCountOverflow ==> error.code == "RESOURCE_EXHAUSTION"@
    &&& fault == FaultKind::Other ==> error.code == "UNEXPECTED_TOKEN"@
}

/// A document may be nested as deep as this, and have as many nodes.
pub proof fn law_limits()
    ensures
        MAX_DEPTH == 128,
        MAX_NODES == 1_000_000,
{
}

/// Whether no event bears an anchor.
pub open spec fn unborne(items: Seq<ScanItem>, anchor: usize) -> bool {
    forall|i: int| 0 <= i < items.len() ==> borne_anchor(item_kind(#[trigger] items[i])) != anchor
}

/// Whether the same is kept under an anchor.
pub open spec fn keeps(before: State, after: State, anchor: usize) -> bool {
    &&& before.anchors.dom().contains(anchor) == after.anchors.dom().contains(anchor)
    &&& before.anchors.dom().contains(anchor) ==> before.anchors[anchor] == after.anchors[anchor]
}

/// What is kept under an anchor stays, whatever is read, until another node bears the same anchor.
pub proof fn law_anchor_stays(input: Seq<char>, state: State, depth: nat, anchor: usize)
    requires
        anchor != 0,
        unborne(state.rest, anchor),
    ensures
        node_spec(input, state, depth) matches Ok((_, _, next)) ==> keeps(state, next, anchor)
            && unborne(next.rest, anchor),
    decreases state.rest.len(), 0nat,
{
    if node_spec(input, state, depth) is Ok {
        assert(state.rest.len() > 0 && state.rest[0] is Event);
        assert(borne_anchor(item_kind(state.rest[0])) != anchor);
        let span = state.rest[0]->span;
        lemma_unborne_rest(state.rest, anchor);
        match state.rest[0]->kind {
            EventKind::SequenceStart(_) => {
                let counted = state.skip().count(input, 1, span)->Ok_0;
                lemma_items_keep(input, counted, depth, anchor, Seq::empty());
            },
            EventKind::MappingStart(_) => {
                let counted = state.skip().count(input, 1, span)->Ok_0;
                lemma_entries_keep(input, counted, depth, anchor, Seq::empty());
            },
            _ => {},
        }
    }
}

proof fn lemma_unborne_rest(items: Seq<ScanItem>, anchor: usize)
    requires
        unborne(items, anchor),
        items.len() > 0,
    ensures
        unborne(items.drop_first(), anchor),
{
    let rest = items.drop_first();
    assert forall|i: int| 0 <= i < rest.len() implies borne_anchor(item_kind(#[trigger] rest[i]))
        != anchor by {
        assert(rest[i] == items[i + 1]);
    }
}

proof fn lemma_items_keep(input: Seq<char>, state: State, depth: nat, anchor: usize, items: Seq<Tree>)
    requires
        anchor != 0,
        unborne(state.rest, anchor),
    ensures
        items_spec(input, state, depth, items) matches Ok((_, next)) ==> keeps(state, next, anchor)
            && unborne(next.rest, anchor),
    decreases state.rest.len(), 1nat,
{
    if items_spec(input, state, depth, items) is Ok {
        assert(state.rest.len() > 0);
        lemma_unborne_rest(state.rest, anchor);
        if !(item_kind(state.rest[0]) is SequenceEnd) {
            law_anchor_stays(input, state, depth + 1, anchor);
            let (tree, _, next) = node_spec(input, state, depth + 1)->Ok_0;
            lemma_items_keep(input, next, depth, anchor, items.push(tree));
        }
    }
}

proof fn lemma_entries_keep(
    input: Seq<char>,
    state: State,
    depth: nat,
    anchor: usize,
    entries: Seq<(Seq<char>, Tree)>,
)
    requires
        anchor != 0,
        unborne(state.rest, anchor),
    ensures
        entries_spec(input, state, depth, entries) matches Ok((_, next)) ==> keeps(state, next, anchor)
            && unborne(next.rest, anchor),
    decreases state.rest.len(), 1nat,
{
    if entries_spec(input, state, depth, entries) is Ok {
        assert(state.rest.len() > 0);
        lemma_unborne_rest(state.rest, anchor);
        if !(item_kind(state.rest[0]) is MappingEnd) {
            law_anchor_stays(input, state, depth + 1, anchor);
            let (key, _, between) = node_spec(input, state, depth + 1)->Ok_0;
            law_anchor_stays(input, between, depth + 1, anchor);
            let (tree, _, next) = node_spec(input, between, depth + 1)->Ok_0;
            lemma_entries_keep(
                input,
                next,
                depth,
                anchor,
                with_entry(entries, key_text(key), tree),
            );
        }
    }
}

/// The events that a value of texts, lists and mappings is written in.
pub open spec fn written(tree: Tree) -> Seq<EventKind<Seq<char>>>
    decreases tree,
{
    match tree {
        Tree::Text(text) => seq![EventKind::Scalar(text, false, 0)],
        Tree::List(items) => seq![EventKind::SequenceStart(0)] + written_items(items) + seq![
            EventKind::SequenceEnd,
        ],
        Tree::Mapping(entries) => seq![EventKind::MappingStart(0)] + written_entries(entries) + seq![
            EventKind::MappingEnd,
        ],
        _ => Seq::empty(),
    }
}

/// The events that the items of a list are written in.
pub open spec fn written_items(items: Seq<Tree>) -> Seq<EventKind<Seq<char>>>
    decreases items,
{
    if items.len() == 0 {
        Seq::empty()
    } else {
        written(items[0]) + written_items(items.drop_first())
    }
}

/// The events that the entries of a mapping are written in: each key before its value.
pub open spec fn written_entries(entries: Seq<(Seq<char>, Tree)>) -> Seq<EventKind<Seq<char>>>
    decreases entries,
{
    if entries.len() == 0 {
        Seq::empty()
    } else {
        seq![EventKind::Scalar(entries[0].0, false, 0)] + written(entries[0].1) + written_entries(
            entries.drop_first(),
        )
    }
}

/// The nodes that a value is written in, the keys of mappings counted.
pub open spec fn written_nodes(tree: Tree) -> nat
    decreases tree,
{
    match tree {
        Tree::List(items) => 1 + items_nodes(items),
        Tree::Mapping(entries) => 1 + pairs_nodes(entries),
        _ => 1,
    }
}

/// The nodes that the items of a list are written in.
pub open spec fn items_nodes(items: Seq<Tree>) -> nat
    decreases items,
{
    if items.len() == 0 {
        0
    } else {
        written_nodes(items[0]) + items_nodes(items.drop_first())
    }
}

/// The nodes that the entries of a mapping are written in.
pub open spec fn pairs_nodes(entries: Seq<(Seq<char>, Tree)>) -> nat
    decreases entries,
{
    if entries.len() == 0 {
        0
    } else {
        1 + written_nodes(entries[0].1) + pairs_nodes(entries.drop_first())
    }
}

/// Whether an item is an event, whatever anchor it bears and in whatever style it is written; a plain `~`
/// may stand for a place left empty, and is none.
pub open spec fn says(item: ScanItem, kind: EventKind<Seq<char>>) -> bool {
    item is Event && match (item->kind, kind) {
        (EventKind::Scalar(text, plain, _), EventKind::Scalar(other, _, _)) => text == other && (plain
            ==> text != "~"@),
        (EventKind::SequenceStart(_), EventKind::SequenceStart(_)) => true,
        (EventKind::MappingStart(_), EventKind::MappingStart(_)) => true,
        (read, expected) => read == expected,
    }
}

/// Whether items start with events.
pub open spec fn start_with(items: Seq<ScanItem>, kinds: Seq<EventKind<Seq<char>>>) -> bool {
    &&& items.len() >= kinds.len()
    &&& forall|i: int| 0 <= i < kinds.len() ==> says(#[trigger] items[i], kinds[i])
}

proof fn lemma_start_with(
    items: Seq<ScanItem>,
    first: Seq<EventKind<Seq<char>>>,
    second: Seq<EventKind<Seq<char>>>,
)
    requires
        start_with(items, first + second),
    ensures
        start_with(items, first),
        start_with(items.skip(first.len() as int), second),
{
    let all = first + second;
    assert forall|i: int| 0 <= i < first.len() implies says(#[trigger] items[i], first[i]) by {
        assert(all[i] == first[i]);
    }
    let rest = items.skip(first.len() as int);
    assert forall|i: int| 0 <= i < second.len() implies says(#[trigger] rest[i], second[i]) by {
        assert(all[first.len() + i] == second[i]);
        assert(rest[i] == items[first.len() + i]);
    }
}

proof fn lemma_written(tree: Tree)
    requires
        only_texts(tree),
    ensures
        written(tree).len() > 0,
        starts_value(written(tree)[0]),
        !(written(tree)[0] is Alias),
{
}

proof fn lemma_item_depth(items: Seq<Tree>, i: int)
    requires
        0 <= i < items.len(),
    ensures
        tree_depth(items[i]) <= list_depth(items),
    decreases items.len(),
{
    if i < items.len() - 1 {
        lemma_item_depth(items.drop_last(), i);
        assert(items.drop_last()[i] == items[i]);
    }
}

proof fn lemma_entry_depth(entries: Seq<(Seq<char>, Tree)>, i: int)
    requires
        0 <= i < entries.len(),
    ensures
        tree_depth(entries[i].1) <= entry_depth(entries),
        tree_depth(entries[i].1) >= 1,
    decreases entries.len(),
{
    if i < entries.len() - 1 {
        lemma_entry_depth(entries.drop_last(), i);
        assert(entries.drop_last()[i] == entries[i]);
    }
}

/// Whether values can be read one level below a depth.
pub open spec fn fits(tree: Tree, depth: nat) -> bool {
    only_texts(tree) && depth + 1 + tree_depth(tree) <= 128
}

/// A value is read back from the events that it is written in, whatever anchors they bear: lists with
/// their items in order, mappings with their entries, nested as deep as the limit allows. What follows
/// is left.
pub proof fn law_read_back(input: Seq<char>, state: State, depth: nat, tree: Tree)
    requires
        only_texts(tree),
        depth + tree_depth(tree) <= 128,
        state.nodes + written_nodes(tree) <= 1_000_000,
        start_with(state.rest, written(tree)),
    ensures
        match node_spec(input, state, depth) {
            Ok((read, span, next)) => {
                &&& read == tree
                &&& span == state.rest[0]->span
                &&& next.rest == state.rest.skip(written(tree).len() as int)
                &&& next.nodes == state.nodes + written_nodes(tree)
            },
            Err(_) => false,
        },
    decreases tree,
{
    lemma_written(tree);
    let all = written(tree);
    assert(says(state.rest[0], all[0]));
    let span = state.rest[0]->span;
    assert(state.rest.skip(1) =~= state.rest.drop_first());
    match tree {
        Tree::List(items) => {
            let start = seq![EventKind::<Seq<char>>::SequenceStart(0)];
            let end = seq![EventKind::<Seq<char>>::SequenceEnd];
            assert(all =~= start + (written_items(items) + end));
            lemma_start_with(state.rest, start, written_items(items) + end);
            let counted = state.skip().count(input, 1, span)->Ok_0;
            lemma_start_with(counted.rest, written_items(items), end);
            assert forall|i: int| 0 <= i < items.len() implies fits(#[trigger] items[i], depth) by {
                lemma_item_depth(items, i);
            }
            let after = lemma_read_items(input, counted, depth, Seq::empty(), items);
            assert(says(after.rest[0], end[0]));
            assert(Seq::<Tree>::empty() + items =~= items);
            assert(after.rest.drop_first() =~= state.rest.skip(all.len() as int));
        },
        Tree::Mapping(entries) => {
            let start = seq![EventKind::<Seq<char>>::MappingStart(0)];
            let end = seq![EventKind::<Seq<char>>::MappingEnd];
            assert(all =~= start + (written_entries(entries) + end));
            lemma_start_with(state.rest, start, written_entries(entries) + end);
            let counted = state.skip().count(input, 1, span)->Ok_0;
            lemma_start_with(counted.rest, written_entries(entries), end);
            assert forall|i: int| 0 <= i < entries.len() implies fits(
                (#[trigger] entries[i]).1,
                depth,
            ) by {
                lemma_entry_depth(entries, i);
            }
            lemma_ascending_differ(entries);
            let none = Seq::<(Seq<char>, Tree)>::empty();
            let (after, read) = lemma_read_entries(input, counted, depth, none, entries);
            assert(says(after.rest[0], end[0]));
            assert(none + entries =~= entries);
            assert(after.rest.drop_first() =~= state.rest.skip(all.len() as int));
        },
        _ => {},
    }
}

proof fn lemma_read_text(input: Seq<char>, state: State, depth: nat, text: Seq<char>)
    requires
        depth < 128,
        state.nodes < 1_000_000,
        state.rest.len() > 0,
        says(state.rest[0], EventKind::Scalar(text, false, 0)),
    ensures
        match node_spec(input, state, depth) {
            Ok((read, span, next)) => {
                &&& read == Tree::Text(text)
                &&& span == state.rest[0]->span
                &&& next.rest == state.rest.drop_first()
                &&& next.nodes == state.nodes + 1
            },
            Err(_) => false,
        },
{
    if let EventKind::Scalar(_, plain, anchor) = state.rest[0]->kind {
        reveal_strlit("~");
        assert("~"@ =~= seq!['~']);
        law_scalar(input, state, depth, text, plain, anchor);
    }
}

/// Whether no key occurs twice.
pub open spec fn keys_differ(entries: Seq<(Seq<char>, Tree)>) -> bool {
    forall|i: int, j: int|
        0 <= i < j < entries.len() ==> (#[trigger] entries[i]).0 != (#[trigger] entries[j]).0
}

proof fn lemma_ascending_differ(entries: Seq<(Seq<char>, Tree)>)
    requires
        keys_ascend(entries),
    ensures
        keys_differ(entries),
{
    assert forall|i: int, j: int| 0 <= i < j < entries.len() implies (#[trigger] entries[i]).0 != (
    #[trigger] entries[j]).0 by {
        crate::text::law_text_order(entries[i].0, entries[j].0);
    }
}

proof fn lemma_read_items(
    input: Seq<char>,
    state: State,
    depth: nat,
    before: Seq<Tree>,
    items: Seq<Tree>,
) -> (after: State)
    requires
        start_with(state.rest, written_items(items)),
        state.nodes + items_nodes(items) <= 1_000_000,
        forall|i: int| 0 <= i < items.len() ==> fits(#[trigger] items[i], depth),
    ensures
        after.rest == state.rest.skip(written_items(items).len() as int),
        after.nodes == state.nodes + items_nodes(items),
        items_spec(input, state, depth, before) == items_spec(input, after, depth, before + items),
    decreases items,
{
    if items.len() == 0 {
        assert(before + items =~= before);
        assert(state.rest.skip(0) =~= state.rest);
        state
    } else {
        let rest = items.drop_first();
        assert(fits(items[0], depth));
        lemma_start_with(state.rest, written(items[0]), written_items(rest));
        law_read_back(input, state, depth + 1, items[0]);
        lemma_written(items[0]);
        assert(says(state.rest[0], written(items[0])[0]));
        let (_, _, next) = node_spec(input, state, depth + 1)->Ok_0;
        assert forall|i: int| 0 <= i < rest.len() implies fits(#[trigger] rest[i], depth) by {
            assert(rest[i] == items[i + 1]);
        }
        let after = lemma_read_items(input, next, depth, before.push(items[0]), rest);
        assert(before.push(items[0]) + rest =~= before + items);
        assert(after.rest =~= state.rest.skip(written_items(items).len() as int));
        after
    }
}

proof fn lemma_rank_last(entries: Seq<(Seq<char>, Tree)>, key: Seq<char>)
    requires
        forall|i: int|
            0 <= i < entries.len() ==> crate::text::text_less((#[trigger] entries[i]).0, key),
    ensures
        rank(entries, key) == entries.len(),
    decreases entries.len(),
{
    if entries.len() > 0 {
        let rest = entries.drop_first();
        assert forall|i: int| 0 <= i < rest.len() implies crate::text::text_less(
            (#[trigger] rest[i]).0,
            key,
        ) by {
            assert(rest[i] == entries[i + 1]);
        }
        assert(crate::text::text_less(entries[0].0, key));
        lemma_rank_last(rest, key);
    }
}

proof fn lemma_read_entries(
    input: Seq<char>,
    state: State,
    depth: nat,
    before: Seq<(Seq<char>, Tree)>,
    entries: Seq<(Seq<char>, Tree)>,
) -> (r: (State, Seq<(Seq<char>, Tree)>))
    requires
        start_with(state.rest, written_entries(entries)),
        state.nodes + pairs_nodes(entries) <= 1_000_000,
        forall|i: int| 0 <= i < entries.len() ==> fits((#[trigger] entries[i]).1, depth),
        keys_ascend(before),
        keys_differ(entries),
        forall|i: int| 0 <= i < entries.len() ==> !has_key(before, (#[trigger] entries[i]).0),
    ensures
        r.0.rest == state.rest.skip(written_entries(entries).len() as int),
        r.0.nodes == state.nodes + pairs_nodes(entries),
        entries_spec(input, state, depth, before) == entries_spec(input, r.0, depth, r.1),
        keys_ascend(r.1),
        r.1.len() == before.len() + entries.len(),
        forall|i: int| 0 <= i < before.len() ==> r.1.contains(#[trigger] before[i]),
        forall|i: int| 0 <= i < entries.len() ==> r.1.contains(#[trigger] entries[i]),
        keys_ascend(before + entries) ==> r.1 == before + entries,
    decreases entries,
{
    if entries.len() == 0 {
        assert(before + entries =~= before);
        assert(state.rest.skip(0) =~= state.rest);
        (state, before)
    } else {
        let rest = entries.drop_first();
        let (key, tree) = entries[0];
        let key_event = seq![EventKind::<Seq<char>>::Scalar(key, false, 0)];
        assert(fits(tree, depth));
        assert(tree_depth(tree) >= 1);
        assert(written_entries(entries) =~= key_event + (written(tree) + written_entries(rest)));
        lemma_start_with(state.rest, key_event, written(tree) + written_entries(rest));
        assert(says(state.rest[0], key_event[0]));
        lemma_read_text(input, state, depth + 1, key);
        let (_, _, between) = node_spec(input, state, depth + 1)->Ok_0;
        assert(between.rest =~= state.rest.skip(1));
        lemma_start_with(between.rest, written(tree), written_entries(rest));
        law_read_back(input, between, depth + 1, tree);
        lemma_written(tree);
        let (_, _, next) = node_spec(input, between, depth + 1)->Ok_0;
        lemma_added(before, entries);
        let new = with_entry(before, key, tree);
        assert forall|i: int| 0 <= i < rest.len() implies fits((#[trigger] rest[i]).1, depth) by {
            assert(rest[i] == entries[i + 1]);
        }
        let r = lemma_read_entries(input, next, depth, new, rest);
        assert(r.0.rest =~= state.rest.skip(written_entries(entries).len() as int));
        assert forall|i: int| 0 <= i < before.len() implies r.1.contains(#[trigger] before[i]) by {
            lemma_among(new, r.1, before[i]);
        }
        assert forall|i: int| 0 <= i < entries.len() implies r.1.contains(#[trigger] entries[i]) by {
            if i == 0 {
                lemma_among(new, r.1, entries[0]);
            } else {
                assert(entries[i] == rest[i - 1]);
            }
        }
        r
    }
}

proof fn lemma_among(
    some: Seq<(Seq<char>, Tree)>,
    all: Seq<(Seq<char>, Tree)>,
    entry: (Seq<char>, Tree),
)
    requires
        forall|i: int| 0 <= i < some.len() ==> all.contains(#[trigger] some[i]),
        some.contains(entry),
    ensures
        all.contains(entry),
{
    let i = choose|i: int| 0 <= i < some.len() && some[i] == entry;
    assert(all.contains(some[i]));
}

proof fn lemma_added(before: Seq<(Seq<char>, Tree)>, entries: Seq<(Seq<char>, Tree)>)
    requires
        entries.len() > 0,
        keys_ascend(before),
        keys_differ(entries),
        forall|i: int| 0 <= i < entries.len() ==> !has_key(before, (#[trigger] entries[i]).0),
    ensures
        ({
            let new = with_entry(before, entries[0].0, entries[0].1);
            let rest = entries.drop_first();
            &&& keys_ascend(new)
            &&& new.len() == before.len() + 1
            &&& new.contains(entries[0])
            &&& forall|i: int| 0 <= i < before.len() ==> new.contains(#[trigger] before[i])
            &&& keys_differ(rest)
            &&& forall|i: int| 0 <= i < rest.len() ==> !has_key(new, (#[trigger] rest[i]).0)
            &&& keys_ascend(before + entries) ==> new + rest == before + entries
        }),
{
    let rest = entries.drop_first();
    let (key, tree) = entries[0];
    assert(!has_key(before, key));
    lemma_with_entry(before, key, tree);
    let new = with_entry(before, key, tree);
    let at = rank(before, key) as int;
    assert(new[at] == (key, tree));
    assert forall|i: int| 0 <= i < before.len() implies new.contains(#[trigger] before[i]) by {
        let j = if i < at {
            i
        } else {
            i + 1
        };
        assert(new[j] == before[i]);
    }
    assert forall|i: int, j: int| 0 <= i < j < rest.len() implies (#[trigger] rest[i]).0 != (
    #[trigger] rest[j]).0 by {
        assert(rest[i] == entries[i + 1] && rest[j] == entries[j + 1]);
    }
    assert forall|i: int| 0 <= i < rest.len() implies !has_key(new, (#[trigger] rest[i]).0) by {
        assert(rest[i] == entries[i + 1]);
        assert(entries[0].0 != entries[i + 1].0);
        assert(!has_key(before, entries[i + 1].0));
        if has_key(new, rest[i].0) {
            let k = choose|k: int| 0 <= k < new.len() && (#[trigger] new[k]).0 == rest[i].0;
            if k < at {
                assert(new[k] == before[k]);
            } else if k > at {
                assert(new[k] == before[k - 1]);
            }
        }
    }
    if keys_ascend(before + entries) {
        let all = before + entries;
        assert forall|i: int| 0 <= i < before.len() implies crate::text::text_less(
            (#[trigger] before[i]).0,
            key,
        ) by {
            assert(all[i] == before[i] && all[before.len() as int] == entries[0]);
        }
        lemma_rank_last(before, key);
        assert(new =~= before.push((key, tree)));
        assert(new + rest =~= before + entries);
    }
}

/// The entries of a mapping are all read, in whatever order they are written: each key with its value, and
/// no others, in ascending order of the keys.
pub proof fn law_mapping_in_any_order(
    input: Seq<char>,
    state: State,
    depth: nat,
    entries: Seq<(Seq<char>, Tree)>,
)
    requires
        depth < 128,
        keys_differ(entries),
        forall|i: int| 0 <= i < entries.len() ==> fits((#[trigger] entries[i]).1, depth),
        state.nodes + 1 + pairs_nodes(entries) <= 1_000_000,
        start_with(state.rest, written(Tree::Mapping(entries))),
    ensures
        match node_spec(input, state, depth) {
            Ok((Tree::Mapping(read), _, next)) => {
                &&& keys_ascend(read)
                &&& read.len() == entries.len()
                &&& forall|i: int| 0 <= i < entries.len() ==> read.contains(#[trigger] entries[i])
                &&& next.rest == state.rest.skip(written(Tree::Mapping(entries)).len() as int)
                &&& next.nodes == state.nodes + 1 + pairs_nodes(entries)
            },
            _ => false,
        },
{
    let all = written(Tree::Mapping(entries));
    let start = seq![EventKind::<Seq<char>>::MappingStart(0)];
    let end = seq![EventKind::<Seq<char>>::MappingEnd];
    assert(all =~= start + (written_entries(entries) + end));
    lemma_start_with(state.rest, start, written_entries(entries) + end);
    assert(says(state.rest[0], start[0]));
    assert(state.rest.skip(1) =~= state.rest.drop_first());
    let counted = state.skip().count(input, 1, state.rest[0]->span)->Ok_0;
    lemma_start_with(counted.rest, written_entries(entries), end);
    let none = Seq::<(Seq<char>, Tree)>::empty();
    let (after, read) = lemma_read_entries(input, counted, depth, none, entries);
    assert(says(after.rest[0], end[0]));
    assert(after.rest.drop_first() =~= state.rest.skip(all.len() as int));
}

/// A key that occurs twice in one mapping is refused, at its second place, whatever its value is.
pub proof fn law_duplicate_key(
    input: Seq<char>,
    state: State,
    depth: nat,
    entries: Seq<(Seq<char>, Tree)>,
    key: Seq<char>,
)
    requires
        depth + 1 < 128,
        keys_differ(entries),
        has_key(entries, key),
        forall|i: int| 0 <= i < entries.len() ==> fits((#[trigger] entries[i]).1, depth),
        state.nodes + 2 + pairs_nodes(entries) <= 1_000_000,
        start_with(
            state.rest,
            seq![EventKind::MappingStart(0)] + (written_entries(entries) + seq![
                EventKind::Scalar(key, false, 0),
            ]),
        ),
    ensures
        ({
            let span = state.rest[1 + written_entries(entries).len() as int]->span;
            node_spec(input, state, depth) matches Err(error) && error.code == "DUPLICATE_KEY"@
                && error.range == Some(span_range(input, span)) && error.message
                == "duplicate mapping key: "@ + key + " at line "@ + decimal_text(
                span.start.line as nat,
            ) + " column "@ + decimal_text((span.start.col + 1) as nat)
        }),
{
    let start = seq![EventKind::<Seq<char>>::MappingStart(0)];
    let end = seq![EventKind::<Seq<char>>::Scalar(key, false, 0)];
    lemma_start_with(state.rest, start, written_entries(entries) + end);
    assert(says(state.rest[0], start[0]));
    assert(state.rest.skip(1) =~= state.rest.drop_first());
    let counted = state.skip().count(input, 1, state.rest[0]->span)->Ok_0;
    lemma_start_with(counted.rest, written_entries(entries), end);
    let none = Seq::<(Seq<char>, Tree)>::empty();
    let (after, read) = lemma_read_entries(input, counted, depth, none, entries);
    assert(says(after.rest[0], end[0]));
    assert(end =~= written(Tree::Text(key)));
    law_read_back(input, after, depth + 1, Tree::Text(key));
    let i = choose|i: int| 0 <= i < entries.len() && (#[trigger] entries[i]).0 == key;
    assert(read.contains(entries[i]));
    assert(has_key(read, key));
}

/// A fault in the middle of a list or a mapping is the fault of the whole, wherever it stands in it.
pub proof fn law_fault_inside(
    input: Seq<char>,
    state: State,
    depth: nat,
    items: Seq<Tree>,
    entries: Seq<(Seq<char>, Tree)>,
)
    requires
        depth < 128,
        keys_differ(entries),
        forall|i: int| 0 <= i < items.len() ==> fits(#[trigger] items[i], depth),
        forall|i: int| 0 <= i < entries.len() ==> fits((#[trigger] entries[i]).1, depth),
        state.nodes + 1 + items_nodes(items) <= 1_000_000,
        state.nodes + 1 + pairs_nodes(entries) <= 1_000_000,
    ensures
        start_with(state.rest, seq![EventKind::SequenceStart(0)] + written_items(items)) ==> is_fault_at(
            input,
            node_spec(input, state, depth),
            state.rest,
            1 + written_items(items).len() as int,
        ),
        start_with(state.rest, seq![EventKind::MappingStart(0)] + written_entries(entries))
            ==> is_fault_at(
            input,
            node_spec(input, state, depth),
            state.rest,
            1 + written_entries(entries).len() as int,
        ),
{
    let sequence = seq![EventKind::<Seq<char>>::SequenceStart(0)];
    let mapping = seq![EventKind::<Seq<char>>::MappingStart(0)];
    if state.rest.len() > 0 {
        assert(state.rest.skip(1) =~= state.rest.drop_first());
    }
    if start_with(state.rest, sequence + written_items(items)) {
        lemma_start_with(state.rest, sequence, written_items(items));
        assert(says(state.rest[0], sequence[0]));
        let counted = state.skip().count(input, 1, state.rest[0]->span)->Ok_0;
        let after = lemma_read_items(input, counted, depth, Seq::empty(), items);
        assert(after.rest =~= state.rest.skip(1 + written_items(items).len() as int));
    }
    if start_with(state.rest, mapping + written_entries(entries)) {
        lemma_start_with(state.rest, mapping, written_entries(entries));
        assert(says(state.rest[0], mapping[0]));
        let counted = state.skip().count(input, 1, state.rest[0]->span)->Ok_0;
        let none = Seq::<(Seq<char>, Tree)>::empty();
        let (after, _) = lemma_read_entries(input, counted, depth, none, entries);
        assert(after.rest =~= state.rest.skip(1 + written_entries(entries).len() as int));
    }
}

/// Whether a node is refused for what stands at a place, where there is a fault or nothing at all.
pub open spec fn is_fault_at<T>(
    input: Seq<char>,
    node: Result<T, ErrorView>,
    items: Seq<ScanItem>,
    at: int,
) -> bool {
    &&& items.len() == at ==> (node matches Err(error) && is_at_end(
        input,
        error,
        "unexpected end of YAML input"@,
    ))
    &&& items.len() > at && items[at] is Fault ==> (node matches Err(error) && is_fault(
        input,
        error,
        items[at]->fault,
        items[at]->message,
    ) && error.range == Some(mark_range(input, items[at]->at)))
}

/// A document is the one value that stands in it; an empty stream is null; a second document is refused
/// where it starts.
pub proof fn law_document(input: Seq<char>, items: Seq<ScanItem>, tree: Tree)
    requires
        only_texts(tree),
        tree_depth(tree) <= 128,
        written_nodes(tree) <= 1_000_000,
    ensures
        ({
            let before = seq![EventKind::StreamStart, EventKind::DocumentStart] + written(tree);
            let n = before.len() as int;
            let closed = seq![EventKind::DocumentEnd, EventKind::StreamEnd];
            let again = seq![EventKind::DocumentEnd, EventKind::DocumentStart];
            &&& start_with(items, before + closed) && items.len() == n + 2 ==> document_spec(
                input,
                items,
            ) == Ok::<Tree, ErrorView>(tree)
            &&& start_with(items, before + closed) && items.len() > n + 2 ==> document_spec(
                input,
                items,
            ) is Err
            &&& start_with(items, before + again) ==> (document_spec(input, items) matches Err(error)
                && error.code == "MULTIPLE_DOCS"@ && error.message
                == "source contains multiple YAML documents"@ && error.range == Some(
                span_range(input, items[n + 1]->span),
            ))
        }),
        start_with(items, seq![EventKind::StreamStart, EventKind::StreamEnd]) ==> document_spec(
            input,
            items,
        ) == Ok::<Tree, ErrorView>(Tree::Null),
{
    let opening = seq![EventKind::<Seq<char>>::StreamStart, EventKind::DocumentStart];
    let before = opening + written(tree);
    let n = before.len() as int;
    let closed = seq![EventKind::<Seq<char>>::DocumentEnd, EventKind::StreamEnd];
    let again = seq![EventKind::<Seq<char>>::DocumentEnd, EventKind::DocumentStart];
    let empty = seq![EventKind::<Seq<char>>::StreamStart, EventKind::StreamEnd];
    if start_with(items, empty) {
        assert(says(items[0], empty[0]) && says(items[1], empty[1]));
        assert(items.drop_first()[0] == items[1]);
    }
    if start_with(items, before + closed) || start_with(items, before + again) {
        let end = if start_with(items, before + closed) {
            closed
        } else {
            again
        };
        lemma_start_with(items, before, end);
        lemma_start_with(items, opening, written(tree));
        assert(says(items[0], opening[0]) && says(items[1], opening[1]));
        assert(items.drop_first()[0] == items[1]);
        let start = State { rest: items, anchors: Map::empty(), nodes: 0 };
        assert(start.skip().skip().rest =~= items.skip(2));
        law_read_back(input, start.skip().skip(), 0, tree);
        let (_, _, next) = node_spec(input, start.skip().skip(), 0)->Ok_0;
        assert(next.rest =~= items.skip(n));
        assert(says(next.rest[0], end[0]) && says(next.rest[1], end[1]));
        assert(next.rest.drop_first()[0] == items[n + 1]);
        assert(next.rest[1] == items[n + 1]);
        if start_with(items, before + again) {
            lemma_start_with(items, before, again);
            assert(says(next.rest[1], again[1]));
        }
    }
}

proof fn lemma_node_shrinks(input: Seq<char>, state: State, depth: nat)
    ensures
        node_spec(input, state, depth) matches Ok((_, _, next)) ==> next.rest.len() < state.rest.len(),
    decreases state.rest.len(), 0nat,
{
    if node_spec(input, state, depth) is Ok {
        assert(state.rest.len() > 0 && state.rest[0] is Event);
        let span = state.rest[0]->span;
        match state.rest[0]->kind {
            EventKind::SequenceStart(_) => {
                let counted = state.skip().count(input, 1, span)->Ok_0;
                lemma_items_shrink(input, counted, depth, Seq::empty());
            },
            EventKind::MappingStart(_) => {
                let counted = state.skip().count(input, 1, span)->Ok_0;
                lemma_entries_shrink(input, counted, depth, Seq::empty());
            },
            _ => {},
        }
    }
}

proof fn lemma_items_shrink(input: Seq<char>, state: State, depth: nat, items: Seq<Tree>)
    ensures
        items_spec(input, state, depth, items) matches Ok((_, next)) ==> next.rest.len()
            < state.rest.len(),
    decreases state.rest.len(), 1nat,
{
    if items_spec(input, state, depth, items) is Ok {
        assert(state.rest.len() > 0);
        if !(item_kind(state.rest[0]) is SequenceEnd) {
            let (tree, _, next) = node_spec(input, state, depth + 1)->Ok_0;
            lemma_items_shrink(input, next, depth, items.push(tree));
        }
    }
}

proof fn lemma_entries_shrink(
    input: Seq<char>,
    state: State,
    depth: nat,
    entries: Seq<(Seq<char>, Tree)>,
)
    ensures
        entries_spec(input, state, depth, entries) matches Ok((_, next)) ==> next.rest.len()
            < state.rest.len(),
    decreases state.rest.len(), 1nat,
{
    if entries_spec(input, state, depth, entries) is Ok {
        assert(state.rest.len() > 0);
        if !(item_kind(state.rest[0]) is MappingEnd) {
            let (key, _, between) = node_spec(input, state, depth + 1)->Ok_0;
            let (tree, _, next) = node_spec(input, between, depth + 1)->Ok_0;
            lemma_entries_shrink(input, next, depth, with_entry(entries, key_text(key), tree));
        }
    }
}

/// Whether reading a node gives a value and leaves the next state.
pub open spec fn gives(input: Seq<char>, state: State, depth: nat, tree: Tree, next: State) -> bool {
    match node_spec(input, state, depth) {
        Ok((read, _, left)) => read == tree && left == next,
        Err(_) => false,
    }
}

/// Whether items are read one after the other, whatever they are, from each state on to the next.
pub open spec fn are_items(
    input: Seq<char>,
    depth: nat,
    items: Seq<Tree>,
    states: Seq<State>,
) -> bool {
    states.len() == items.len() + 1 && forall|i: int, j: int|
        0 <= i < items.len() && j == i + 1 ==> gives(
            input,
            #[trigger] states[i],
            depth + 1,
            items[i],
            #[trigger] states[j],
        )
}

/// The state behind the event that starts a collection.
pub open spec fn is_inside(state: State, inside: State) -> bool {
    &&& inside.rest == state.rest.drop_first()
    &&& inside.nodes == state.nodes + 1
    &&& inside.anchors == state.anchors
}

/// Whether a collection that a state starts with is a value, and is left behind its last state: with its end
/// passed over, and kept under its anchor where it has one.
pub open spec fn is_left(
    input: Seq<char>,
    state: State,
    depth: nat,
    tree: Tree,
    last: State,
    anchor: usize,
) -> bool {
    match node_spec(input, state, depth) {
        Ok((read, span, next)) => {
            &&& read == tree
            &&& span == state.rest[0]->span
            &&& next.rest == last.rest.drop_first()
            &&& next.nodes == last.nodes
            &&& next.anchors == if anchor == 0 {
                last.anchors
            } else {
                last.anchors.insert(anchor, (tree, (last.nodes - state.nodes) as nat))
            }
        },
        Err(_) => false,
    }
}

proof fn lemma_items_from(
    input: Seq<char>,
    depth: nat,
    items: Seq<Tree>,
    states: Seq<State>,
    k: int,
)
    requires
        are_items(input, depth, items, states),
        0 <= k <= items.len(),
    ensures
        items_spec(input, states[k], depth, items.take(k)) == items_spec(
            input,
            states[items.len() as int],
            depth,
            items,
        ),
    decreases items.len() - k,
{
    if k < items.len() {
        assert(gives(input, states[k], depth + 1, items[k], states[k + 1]));
        lemma_node_shrinks(input, states[k], depth + 1);
        lemma_items_from(input, depth, items, states, k + 1);
        assert(items.take(k + 1) =~= items.take(k).push(items[k]));
    } else {
        assert(items.take(k) =~= items);
    }
}

/// A list is made of the values of its items, whatever nodes they are, aliases among them, all of them and in
/// order; it ends with its end. What is wrong with an item is what is wrong with the list.
pub proof fn law_list(
    input: Seq<char>,
    state: State,
    depth: nat,
    anchor: usize,
    items: Seq<Tree>,
    states: Seq<State>,
)
    requires
        depth < 128,
        state.nodes < 1_000_000,
        state.rest.len() > 0,
        state.rest[0] is Event,
        state.rest[0]->kind == EventKind::<Seq<char>>::SequenceStart(anchor),
        are_items(input, depth, items, states),
        is_inside(state, states[0]),
    ensures
        ({
            let last = states[items.len() as int];
            let ended = last.rest.len() > 0 && item_kind(last.rest[0]) is SequenceEnd;
            &&& ended ==> is_left(input, state, depth, Tree::List(items), last, anchor)
            &&& !ended ==> (node_spec(input, last, depth + 1) matches Err(error) ==> (node_spec(
                input,
                state,
                depth,
            ) matches Err(told) && told == error))
        }),
{
    let counted = state.skip().count(input, 1, state.rest[0]->span)->Ok_0;
    assert(counted == states[0]);
    lemma_items_from(input, depth, items, states, 0);
    assert(items.take(0) =~= Seq::<Tree>::empty());
}

/// Whether entries are read one after the other, each key before its value, from each state on to the next.
pub open spec fn are_entries(
    input: Seq<char>,
    depth: nat,
    keys: Seq<Tree>,
    entries: Seq<(Seq<char>, Tree)>,
    states: Seq<State>,
    between: Seq<State>,
) -> bool {
    &&& states.len() == entries.len() + 1
    &&& between.len() == entries.len()
    &&& keys.len() == entries.len()
    &&& forall|i: int|
        0 <= i < entries.len() ==> gives(
            input,
            #[trigger] states[i],
            depth + 1,
            keys[i],
            between[i],
        ) && key_text(keys[i]) == entries[i].0
    &&& forall|i: int, j: int|
        0 <= i < entries.len() && j == i + 1 ==> gives(
            input,
            #[trigger] between[i],
            depth + 1,
            entries[i].1,
            #[trigger] states[j],
        )
}

proof fn lemma_entries_from(
    input: Seq<char>,
    depth: nat,
    keys: Seq<Tree>,
    entries: Seq<(Seq<char>, Tree)>,
    states: Seq<State>,
    between: Seq<State>,
    k: int,
    before: Seq<(Seq<char>, Tree)>,
) -> (read: Seq<(Seq<char>, Tree)>)
    requires
        are_entries(input, depth, keys, entries, states, between),
        keys_differ(entries),
        0 <= k <= entries.len(),
        keys_ascend(before),
        forall|i: int| k <= i < entries.len() ==> !has_key(before, (#[trigger] entries[i]).0),
    ensures
        entries_spec(input, states[k], depth, before) == entries_spec(
            input,
            states[entries.len() as int],
            depth,
            read,
        ),
        keys_ascend(read),
        read.len() == before.len() + entries.len() - k,
        forall|i: int| 0 <= i < before.len() ==> read.contains(#[trigger] before[i]),
        forall|i: int| k <= i < entries.len() ==> read.contains(#[trigger] entries[i]),
        forall|key: Seq<char>| #[trigger]
            has_key(read, key) ==> has_key(before, key) || has_key(entries, key),
    decreases entries.len() - k,
{
    if k == entries.len() {
        before
    } else {
        let left = entries.skip(k);
        assert(left[0] == entries[k]);
        assert forall|i: int| 0 <= i < left.len() implies !has_key(before, (#[trigger] left[i]).0) by {
            assert(left[i] == entries[k + i]);
        }
        assert(keys_differ(left)) by {
            assert forall|i: int, j: int| 0 <= i < j < left.len() implies (#[trigger] left[i]).0 != (
            #[trigger] left[j]).0 by {
                assert(left[i] == entries[k + i] && left[j] == entries[k + j]);
            }
        }
        lemma_added(before, left);
        let new = with_entry(before, entries[k].0, entries[k].1);
        assert forall|i: int| k + 1 <= i < entries.len() implies !has_key(
            new,
            (#[trigger] entries[i]).0,
        ) by {
            assert(left.drop_first()[i - k - 1] == entries[i]);
        }
        assert(gives(input, states[k], depth + 1, keys[k], between[k]));
        assert(gives(input, between[k], depth + 1, entries[k].1, states[k + 1]));
        lemma_node_shrinks(input, states[k], depth + 1);
        lemma_node_shrinks(input, between[k], depth + 1);
        assert(!has_key(before, entries[k].0));
        let read = lemma_entries_from(
            input,
            depth,
            keys,
            entries,
            states,
            between,
            k + 1,
            new,
        );
        assert forall|i: int| 0 <= i < before.len() implies read.contains(#[trigger] before[i]) by {
            lemma_among(new, read, before[i]);
        }
        assert forall|i: int| k <= i < entries.len() implies read.contains(#[trigger] entries[i]) by {
            if i == k {
                lemma_among(new, read, entries[k]);
            }
        }
        assert forall|key: Seq<char>| #[trigger] has_key(read, key) implies has_key(before, key)
            || has_key(entries, key) by {
            if has_key(new, key) {
                lemma_added_key(before, entries[k].0, entries[k].1, key);
            }
        }
        read
    }
}

/// A mapping is made of the values of its entries under the texts of their keys, whatever nodes they are,
/// aliases among them, all of them and no others, in ascending order of the keys; it ends with its end. A key
/// that was there before is refused at its place, and what is wrong with a key is what is wrong with the
/// mapping.
pub proof fn law_mapping(
    input: Seq<char>,
    state: State,
    depth: nat,
    anchor: usize,
    keys: Seq<Tree>,
    entries: Seq<(Seq<char>, Tree)>,
    states: Seq<State>,
    between: Seq<State>,
)
    requires
        depth < 128,
        state.nodes < 1_000_000,
        state.rest.len() > 0,
        state.rest[0] is Event,
        state.rest[0]->kind == EventKind::<Seq<char>>::MappingStart(anchor),
        are_entries(input, depth, keys, entries, states, between),
        keys_differ(entries),
        is_inside(state, states[0]),
    ensures
        ({
            let last = states[entries.len() as int];
            let ended = last.rest.len() > 0 && item_kind(last.rest[0]) is MappingEnd;
            let whole = node_spec(input, state, depth);
            &&& ended ==> (whole matches Ok((Tree::Mapping(read), _, _)) && keys_ascend(read) && read.len()
                == entries.len() && (forall|i: int|
                0 <= i < entries.len() ==> read.contains(#[trigger] entries[i])) && is_left(
                input,
                state,
                depth,
                Tree::Mapping(read),
                last,
                anchor,
            ))
            &&& !ended ==> match node_spec(input, last, depth + 1) {
                Err(error) => (whole matches Err(told) && told == error),
                Ok((key, span, next)) => {
                    &&& has_key(entries, key_text(key)) ==> (whole matches Err(told) && told.code
                        == "DUPLICATE_KEY"@ && told.range == Some(span_range(input, span)))
                    &&& !has_key(entries, key_text(key)) ==> (node_spec(input, next, depth + 1) matches Err(
                        error,
                    ) ==> (whole matches Err(told) && told == error))
                },
            }
        }),
{
    let counted = state.skip().count(input, 1, state.rest[0]->span)->Ok_0;
    assert(counted == states[0]);
    let none = Seq::<(Seq<char>, Tree)>::empty();
    let read = lemma_entries_from(input, depth, keys, entries, states, between, 0, none);
    let last = states[entries.len() as int];
    lemma_node_shrinks(input, last, depth + 1);
    assert forall|key: Seq<char>| #[trigger] has_key(entries, key) implies has_key(read, key) by {
        let i = choose|i: int| 0 <= i < entries.len() && (#[trigger] entries[i]).0 == key;
        assert(read.contains(entries[i]));
        let k = choose|k: int| 0 <= k < read.len() && read[k] == entries[i];
        assert(read[k].0 == key);
    }
}

proof fn lemma_added_key(
    before: Seq<(Seq<char>, Tree)>,
    added: Seq<char>,
    tree: Tree,
    key: Seq<char>,
)
    requires
        keys_ascend(before),
        !has_key(before, added),
        has_key(with_entry(before, added, tree), key),
    ensures
        has_key(before, key) || key == added,
{
    lemma_with_entry(before, added, tree);
    let new = with_entry(before, added, tree);
    let at = rank(before, added) as int;
    let k = choose|k: int| 0 <= k < new.len() && (#[trigger] new[k]).0 == key;
    if k < at {
        assert(new[k] == before[k]);
    } else if k > at {
        assert(new[k] == before[k - 1]);
    }
}

/// A document is the value of its one node, whatever that is, where nothing but its end and that of the stream
/// follows; what is wrong with the node is what is wrong with the document. No anchor is known before it.
pub proof fn law_document_node(input: Seq<char>, items: Seq<ScanItem>)
    requires
        items.len() > 1,
        items[0] is Event,
        items[0]->kind is StreamStart,
        items[1] is Event,
        items[1]->kind is DocumentStart,
    ensures
        ({
            let start = State { rest: items.skip(2), anchors: Map::empty(), nodes: 0 };
            match node_spec(input, start, 0) {
                Err(error) => document_spec(input, items) == Err::<Tree, _>(error),
                Ok((tree, _, end)) => end.rest.len() == 2 && item_kind(end.rest[0]) is DocumentEnd
                    && item_kind(end.rest[1]) is StreamEnd ==> document_spec(input, items) == Ok::<
                    _,
                    ErrorView,
                >(tree),
            }
        }),
{
    let start = State { rest: items, anchors: Map::empty(), nodes: 0 };
    assert(items.drop_first()[0] == items[1]);
    assert(start.skip().skip().rest =~= items.skip(2));
    assert(start.skip().skip() == (State { rest: items.skip(2), anchors: Map::empty(), nodes: 0 }));
    if let Ok((tree, _, end)) = node_spec(input, start.skip().skip(), 0) {
        if end.rest.len() == 2 {
            assert(end.rest.drop_first()[0] == end.rest[1]);
        }
    }
}

/// Whether a document is refused for the event that stands at a place, where another was to come.
pub open spec fn is_stray_at<T>(
    input: Seq<char>,
    r: Result<T, ErrorView>,
    item: ScanItem,
    expected: Seq<char>,
) -> bool {
    r matches Err(error) && error.code == "UNEXPECTED_TOKEN"@ && error.message == "expected "@ + expected
        + ", found "@ + item->shown && error.range == Some(span_range(input, item->span))
}

/// A stream starts with its start, a document with its own; behind the value the document ends, and behind that
/// the stream. Any other event is refused at its place, and so is whatever follows the stream.
pub proof fn law_refused_document(input: Seq<char>, items: Seq<ScanItem>, tree: Tree)
    requires
        only_texts(tree),
        tree_depth(tree) <= 128,
        written_nodes(tree) <= 1_000_000,
    ensures
        items.len() > 0 && items[0] is Event && !(items[0]->kind is StreamStart) ==> is_stray_at(
            input,
            document_spec(input, items),
            items[0],
            "stream start"@,
        ),
        items.len() > 1 && items[0] is Event && items[0]->kind is StreamStart && items[1] is Event && !(
        items[1]->kind is StreamEnd) && !(items[1]->kind is DocumentStart) ==> is_stray_at(
            input,
            document_spec(input, items),
            items[1],
            "document start"@,
        ),
        is_fault_at(input, document_spec(input, items), items, 0),
        items.len() > 0 && items[0] is Event && items[0]->kind is StreamStart ==> is_fault_at(
            input,
            document_spec(input, items),
            items,
            1,
        ),
        ({
            let before = seq![EventKind::StreamStart, EventKind::DocumentStart] + written(tree);
            let n = before.len() as int;
            let ended = before + seq![EventKind::DocumentEnd];
            let closed = ended + seq![EventKind::StreamEnd];
            let r = document_spec(input, items);
            &&& start_with(items, before) ==> is_fault_at(input, r, items, n)
            &&& start_with(items, before) && items.len() > n && items[n] is Event && !(
            items[n]->kind is DocumentEnd) ==> is_stray_at(input, r, items[n], "document end"@)
            &&& start_with(items, ended) ==> is_fault_at(input, r, items, n + 1)
            &&& start_with(items, ended) && items.len() > n + 1 && items[n + 1] is Event && !(
            items[n + 1]->kind is StreamEnd) && !(items[n + 1]->kind is DocumentStart) ==> is_stray_at(
                input,
                r,
                items[n + 1],
                "stream end"@,
            )
            &&& start_with(items, closed) && items.len() > n + 2 && items[n + 2] is Event ==> (r matches Err(
                error,
            ) && is_at_end(input, error, "unexpected events after the YAML stream ended"@))
            &&& start_with(items, closed) && items.len() > n + 2 ==> is_fault_at(input, r, items, n + 2)
        }),
{
    let opening = seq![EventKind::<Seq<char>>::StreamStart, EventKind::DocumentStart];
    let before = opening + written(tree);
    let n = before.len() as int;
    let end = seq![EventKind::<Seq<char>>::DocumentEnd];
    let last = seq![EventKind::<Seq<char>>::StreamEnd];
    if items.len() > 1 {
        assert(items.drop_first()[0] == items[1]);
    }
    if start_with(items, before + end + last) {
        lemma_start_with(items, before + end, last);
        assert(items.skip((before + end).len() as int)[0] == items[n + 1]);
        assert(says(items.skip((before + end).len() as int)[0], last[0]));
    }
    if start_with(items, before + end) {
        lemma_start_with(items, before, end);
        assert(items.skip(n)[0] == items[n]);
        assert(says(items.skip(n)[0], end[0]));
    }
    if start_with(items, before) {
        lemma_start_with(items, opening, written(tree));
        assert(says(items[0], opening[0]) && says(items[1], opening[1]));
        let start = State { rest: items, anchors: Map::empty(), nodes: 0 };
        assert(start.skip().skip().rest =~= items.skip(2));
        law_read_back(input, start.skip().skip(), 0, tree);
        let (_, _, next) = node_spec(input, start.skip().skip(), 0)->Ok_0;
        assert(next.rest =~= items.skip(n));
        if items.len() > n {
            assert(next.rest[0] == items[n]);
            assert(next.skip().rest =~= items.skip(n + 1));
        }
        if items.len() > n + 1 {
            assert(next.skip().rest[0] == items[n + 1]);
            assert(next.skip().skip().rest =~= items.skip(n + 2));
        }
        if items.len() > n + 2 {
            assert(next.skip().skip().rest[0] == items[n + 2]);
        }
    }
}

/// An event that starts no value is refused in the middle of a list or a mapping, where it does not end it.
pub proof fn law_stray_inside(
    input: Seq<char>,
    state: State,
    depth: nat,
    items: Seq<Tree>,
    entries: Seq<(Seq<char>, Tree)>,
)
    requires
        depth + 1 < 128,
        keys_differ(entries),
        forall|i: int| 0 <= i < items.len() ==> fits(#[trigger] items[i], depth),
        forall|i: int| 0 <= i < entries.len() ==> fits((#[trigger] entries[i]).1, depth),
        state.nodes + 1 + items_nodes(items) <= 1_000_000,
        state.nodes + 1 + pairs_nodes(entries) <= 1_000_000,
    ensures
        ({
            let n = 1 + written_items(items).len() as int;
            start_with(state.rest, seq![EventKind::SequenceStart(0)] + written_items(items))
                && state.rest.len() > n && state.rest[n] is Event && !starts_value(state.rest[n]->kind) && !(
            state.rest[n]->kind is SequenceEnd) ==> is_stray_at(
                input,
                node_spec(input, state, depth),
                state.rest[n],
                "YAML value"@,
            )
        }),
        ({
            let n = 1 + written_entries(entries).len() as int;
            start_with(state.rest, seq![EventKind::MappingStart(0)] + written_entries(entries))
                && state.rest.len() > n && state.rest[n] is Event && !starts_value(state.rest[n]->kind) && !(
            state.rest[n]->kind is MappingEnd) ==> is_stray_at(
                input,
                node_spec(input, state, depth),
                state.rest[n],
                "YAML value"@,
            )
        }),
{
    let sequence = seq![EventKind::<Seq<char>>::SequenceStart(0)];
    let mapping = seq![EventKind::<Seq<char>>::MappingStart(0)];
    if state.rest.len() > 0 {
        assert(state.rest.skip(1) =~= state.rest.drop_first());
    }
    if start_with(state.rest, sequence + written_items(items)) {
        lemma_start_with(state.rest, sequence, written_items(items));
        assert(says(state.rest[0], sequence[0]));
        let counted = state.skip().count(input, 1, state.rest[0]->span)->Ok_0;
        let after = lemma_read_items(input, counted, depth, Seq::empty(), items);
        assert(after.rest =~= state.rest.skip(1 + written_items(items).len() as int));
        law_refused_node(input, after, depth + 1);
    }
    if start_with(state.rest, mapping + written_entries(entries)) {
        lemma_start_with(state.rest, mapping, written_entries(entries));
        assert(says(state.rest[0], mapping[0]));
        let counted = state.skip().count(input, 1, state.rest[0]->span)->Ok_0;
        let none = Seq::<(Seq<char>, Tree)>::empty();
        let (after, _) = lemma_read_entries(input, counted, depth, none, entries);
        assert(after.rest =~= state.rest.skip(1 + written_entries(entries).len() as int));
        law_refused_node(input, after, depth + 1);
    }
}

/// Comments do not count: they are left out, wherever they stand, and nothing else is, in the order in
/// which it stands.
pub proof fn law_comments(first: Seq<ScanItem>, item: ScanItem, second: Seq<ScanItem>)
    ensures
        significant(Seq::empty()) == Seq::<ScanItem>::empty(),
        item_kind(item) is Comment ==> significant(seq![item]) == Seq::<ScanItem>::empty(),
        !(item_kind(item) is Comment) ==> significant(seq![item]) == seq![item],
        significant(first + second) == significant(first) + significant(second),
    decreases first.len(),
{
    reveal_with_fuel(significant, 2);
    assert(seq![item].drop_first() =~= Seq::<ScanItem>::empty());
    assert(seq![item] + Seq::<ScanItem>::empty() =~= seq![item]);
    if first.len() == 0 {
        assert(first + second =~= second);
        assert(significant(first) + significant(second) =~= significant(second));
    } else {
        law_comments(first.drop_first(), item, second);
        assert((first + second).drop_first() =~= first.drop_first() + second);
        assert(significant(first + second) =~= significant(first) + significant(second));
    }
}

} // verus!
