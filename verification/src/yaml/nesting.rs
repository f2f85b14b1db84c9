//! How deep documents are nested.
use vstd::prelude::*;

use super::failsafe::{
    document_spec, entries_spec, items_spec, next_spec, node_spec, State, MAX_DEPTH,
};
use super::scan::{item_kind, EventKind, ScanItem};
use super::value::{key_text, rank, with_entry, Tree};

verus! {

/// How many more collections an item opens than it closes.
pub open spec fn opened_by(item: ScanItem) -> int {
    match item_kind(item) {
        EventKind::SequenceStart(_) => 1,
        EventKind::MappingStart(_) => 1,
        EventKind::SequenceEnd => -1,
        EventKind::MappingEnd => -1,
        _ => 0,
    }
}

/// How many collections are open behind the items, where none was open before them.
pub open spec fn opened(items: Seq<ScanItem>) -> int
    decreases items.len(),
{
    if items.len() == 0 {
        0
    } else {
        opened(items.drop_last()) + opened_by(items.last())
    }
}

/// Whether `to` is what is left of `from` behind items that open `change` more collections than they
/// close, and never have more than `room` of theirs open.
pub open spec fn passes(from: Seq<ScanItem>, to: Seq<ScanItem>, room: int, change: int) -> bool {
    let n = from.len() - to.len();
    &&& n >= 0
    &&& to == from.skip(n)
    &&& opened(from.take(n)) == change
    &&& forall|k: int| 0 <= k <= n ==> opened(#[trigger] from.take(k)) <= room
}

/// Whether an item stands for what an anchor names.
pub open spec fn is_alias(item: ScanItem) -> bool {
    item_kind(item) is Alias
}

/// Whether no alias lies between `from` and what is left of it, `to`.
pub open spec fn without_alias(from: Seq<ScanItem>, to: Seq<ScanItem>) -> bool {
    forall|i: int| 0 <= i < from.len() - to.len() ==> !is_alias(#[trigger] from[i])
}

/// The larger of two numbers.
pub open spec fn larger(a: nat, b: nat) -> nat {
    if a < b {
        b
    } else {
        a
    }
}

/// How deep a value is nested, a scalar counted as one level.
pub open spec fn tree_depth(tree: Tree) -> nat
    decreases tree,
{
    match tree {
        Tree::List(items) => 1 + list_depth(items),
        Tree::Mapping(entries) => 1 + entry_depth(entries),
        _ => 1,
    }
}

/// How deep the values of a list are nested.
pub open spec fn list_depth(items: Seq<Tree>) -> nat
    decreases items,
{
    if items.len() == 0 {
        0
    } else {
        larger(list_depth(items.drop_last()), tree_depth(items.last()))
    }
}

/// How deep the values in the entries of a mapping are nested.
pub open spec fn entry_depth(entries: Seq<(Seq<char>, Tree)>) -> nat
    decreases entries,
{
    if entries.len() == 0 {
        0
    } else {
        larger(entry_depth(entries.drop_last()), tree_depth(entries.last().1))
    }
}

proof fn lemma_opened_concat(a: Seq<ScanItem>, b: Seq<ScanItem>)
    ensures
        opened(a + b) == opened(a) + opened(b),
    decreases b.len(),
{
    if b.len() == 0 {
        assert(a + b =~= a);
    } else {
        assert((a + b).drop_last() =~= a + b.drop_last());
        lemma_opened_concat(a, b.drop_last());
    }
}

proof fn lemma_passes_one(from: Seq<ScanItem>)
    requires
        from.len() > 0,
    ensures
        passes(
            from,
            from.drop_first(),
            if opened_by(from[0]) > 0 {
                1
            } else {
                0
            },
            opened_by(from[0]),
        ),
{
    assert(from.take(0) =~= Seq::<ScanItem>::empty());
    assert(from.take(1).drop_last() =~= Seq::<ScanItem>::empty());
    assert(from.take(1).last() == from[0]);
    assert(opened(from.take(1)) == opened(from.take(1).drop_last()) + opened_by(from[0]));
    assert(from.drop_first() =~= from.skip(1));
}

proof fn lemma_passes_join(
    a: Seq<ScanItem>,
    b: Seq<ScanItem>,
    c: Seq<ScanItem>,
    first: (int, int),
    second: (int, int),
    room: int,
)
    requires
        passes(a, b, first.0, first.1),
        passes(b, c, second.0, second.1),
        first.0 <= room,
        first.1 + second.0 <= room,
    ensures
        passes(a, c, room, first.1 + second.1),
{
    let n = a.len() - b.len();
    let m = b.len() - c.len();
    assert(c =~= a.skip(n + m));
    assert forall|k: int| 0 <= k <= n + m implies opened(#[trigger] a.take(k)) <= room && (k >= n
        ==> opened(a.take(k)) == first.1 + opened(b.take(k - n))) by {
        if k >= n {
            assert(a.take(k) =~= a.take(n) + b.take(k - n));
            lemma_opened_concat(a.take(n), b.take(k - n));
        }
    }
    assert(opened(a.take(n + m)) == first.1 + opened(b.take(m)));
}

proof fn lemma_without_alias(a: Seq<ScanItem>, b: Seq<ScanItem>, c: Seq<ScanItem>)
    requires
        b.len() <= a.len(),
        c.len() <= b.len(),
        b == a.skip(a.len() - b.len()),
        without_alias(a, c),
    ensures
        without_alias(a, b),
        without_alias(b, c),
{
    let n = a.len() - b.len();
    assert forall|i: int| 0 <= i < b.len() - c.len() implies !is_alias(#[trigger] b[i]) by {
        assert(b[i] == a[n + i]);
    }
}

/// Whatever a node takes in opens no more collections than are left below the limit, and closes all
/// that it opens. Unless an alias stands in it, its value is nested no deeper than that.
pub proof fn law_node_nesting(input: Seq<char>, state: State, depth: nat)
    ensures
        node_spec(input, state, depth) matches Ok((tree, _, next)) ==> {
            &&& next.rest.len() < state.rest.len()
            &&& passes(state.rest, next.rest, MAX_DEPTH - depth, 0)
            &&& without_alias(state.rest, next.rest) ==> depth + tree_depth(tree) <= MAX_DEPTH
        },
    decreases state.rest.len(), 0nat,
{
    let rest = state.rest;
    if let Ok((tree, _, next)) = node_spec(input, state, depth) {
        let (kind, span, _) = next_spec(input, rest)->Ok_0;
        let tail = rest.drop_first();
        let room = MAX_DEPTH - depth;
        lemma_passes_one(rest);
        assert(item_kind(rest[0]) == kind);
        match kind {
            EventKind::SequenceStart(_) => {
                let counted = state.skip().count(input, 1, span)->Ok_0;
                lemma_items(input, counted, depth, Seq::empty());
                lemma_passes_join(rest, tail, next.rest, (1, 1), (room - 1, -1), room);
                if without_alias(rest, next.rest) {
                    lemma_without_alias(rest, tail, next.rest);
                }
            },
            EventKind::MappingStart(_) => {
                let counted = state.skip().count(input, 1, span)->Ok_0;
                lemma_entries(input, counted, depth, Seq::empty());
                lemma_passes_join(rest, tail, next.rest, (1, 1), (room - 1, -1), room);
                if without_alias(rest, next.rest) {
                    lemma_without_alias(rest, tail, next.rest);
                }
            },
            EventKind::Alias(_) => {
                assert(is_alias(rest[0]));
            },
            _ => {},
        }
    }
}

proof fn lemma_items(input: Seq<char>, state: State, depth: nat, items: Seq<Tree>)
    requires
        depth < MAX_DEPTH,
    ensures
        items_spec(input, state, depth, items) matches Ok((all, next)) ==> {
            &&& next.rest.len() < state.rest.len()
            &&& passes(state.rest, next.rest, MAX_DEPTH - depth - 1, -1)
            &&& without_alias(state.rest, next.rest) && depth + 1 + list_depth(items) <= MAX_DEPTH
                ==> depth + 1 + list_depth(all) <= MAX_DEPTH
        },
    decreases state.rest.len(), 1nat,
{
    let rest = state.rest;
    let room = MAX_DEPTH - depth - 1;
    if let Ok((all, next)) = items_spec(input, state, depth, items) {
        lemma_passes_one(rest);
        let (kind, _, _) = next_spec(input, rest)->Ok_0;
        assert(item_kind(rest[0]) == kind);
        if !(kind is SequenceEnd) {
            law_node_nesting(input, state, depth + 1);
            let (tree, _, behind) = node_spec(input, state, depth + 1)->Ok_0;
            lemma_items(input, behind, depth, items.push(tree));
            lemma_passes_join(rest, behind.rest, next.rest, (room, 0), (room, -1), room);
            if without_alias(rest, next.rest) {
                lemma_without_alias(rest, behind.rest, next.rest);
                assert(items.push(tree).drop_last() =~= items);
            }
        }
    }
}

proof fn lemma_entries(input: Seq<char>, state: State, depth: nat, entries: Seq<(Seq<char>, Tree)>)
    requires
        depth < MAX_DEPTH,
    ensures
        entries_spec(input, state, depth, entries) matches Ok((all, next)) ==> {
            &&& next.rest.len() < state.rest.len()
            &&& passes(state.rest, next.rest, MAX_DEPTH - depth - 1, -1)
            &&& without_alias(state.rest, next.rest) && depth + 1 + entry_depth(entries) <= MAX_DEPTH
                ==> depth + 1 + entry_depth(all) <= MAX_DEPTH
        },
    decreases state.rest.len(), 1nat,
{
    let rest = state.rest;
    let room = MAX_DEPTH - depth - 1;
    if let Ok((all, next)) = entries_spec(input, state, depth, entries) {
        lemma_passes_one(rest);
        let (kind, _, _) = next_spec(input, rest)->Ok_0;
        assert(item_kind(rest[0]) == kind);
        if !(kind is MappingEnd) {
            law_node_nesting(input, state, depth + 1);
            let (key, _, between) = node_spec(input, state, depth + 1)->Ok_0;
            law_node_nesting(input, between, depth + 1);
            let (tree, _, behind) = node_spec(input, between, depth + 1)->Ok_0;
            let new = with_entry(entries, key_text(key), tree);
            lemma_entries(input, behind, depth, new);
            lemma_passes_join(rest, between.rest, behind.rest, (room, 0), (room, 0), room);
            lemma_passes_join(rest, behind.rest, next.rest, (room, 0), (room, -1), room);
            if without_alias(rest, next.rest) {
                lemma_without_alias(rest, behind.rest, next.rest);
                lemma_without_alias(rest, between.rest, behind.rest);
                lemma_rank(entries, key_text(key));
                lemma_entry_depth_insert(
                    entries,
                    rank(entries, key_text(key)) as int,
                    (key_text(key), tree),
                );
            }
        }
    }
}

proof fn lemma_entry_depth_insert(entries: Seq<(Seq<char>, Tree)>, at: int, entry: (Seq<char>, Tree))
    requires
        0 <= at <= entries.len(),
    ensures
        entry_depth(entries.insert(at, entry)) == larger(entry_depth(entries), tree_depth(entry.1)),
    decreases entries.len(),
{
    let new = entries.insert(at, entry);
    if at == entries.len() {
        assert(new.drop_last() =~= entries);
    } else {
        assert(new.drop_last() =~= entries.drop_last().insert(at, entry));
        assert(new.last() == entries.last());
        lemma_entry_depth_insert(entries.drop_last(), at, entry);
    }
}

proof fn lemma_rank(entries: Seq<(Seq<char>, Tree)>, key: Seq<char>)
    ensures
        rank(entries, key) <= entries.len(),
    decreases entries.len(),
{
    if entries.len() > 0 {
        lemma_rank(entries.drop_first(), key);
    }
}

/// No document of the failsafe schema that parses has more collections open at any place than the
/// limit; the empty stream, which is null, has no such place. Unless an alias stands in the document,
/// its value is nested no deeper than the limit.
pub proof fn law_document_nesting(input: Seq<char>, items: Seq<ScanItem>)
    ensures
        document_spec(input, items) matches Ok(tree) ==> {
            &&& tree == Tree::Null || forall|k: int|
                0 <= k <= items.len() ==> opened(#[trigger] items.take(k)) <= MAX_DEPTH
            &&& without_alias(items, Seq::empty()) ==> tree_depth(tree) <= MAX_DEPTH
        },
{
    let start = State { rest: items, anchors: Map::empty(), nodes: 0 };
    let room = MAX_DEPTH as int;
    if let Ok(tree) = document_spec(input, items) {
        let inside = start.skip();
        if !(next_spec(input, inside.rest)->Ok_0.0 is StreamEnd) {
            let begin = inside.skip();
            let (_, _, end) = node_spec(input, begin, 0)->Ok_0;
            let after = end.skip();
            let done = after.skip();
            lemma_passes_one(items);
            lemma_passes_one(inside.rest);
            law_node_nesting(input, begin, 0);
            lemma_passes_one(end.rest);
            lemma_passes_one(after.rest);
            lemma_passes_join(items, inside.rest, begin.rest, (0, 0), (0, 0), 0);
            lemma_passes_join(items, begin.rest, end.rest, (0, 0), (room, 0), room);
            lemma_passes_join(items, end.rest, after.rest, (room, 0), (0, 0), room);
            lemma_passes_join(items, after.rest, done.rest, (room, 0), (0, 0), room);
            assert(done.rest =~= Seq::<ScanItem>::empty());
            if without_alias(items, Seq::empty()) {
                lemma_without_alias(items, begin.rest, Seq::empty());
                lemma_without_alias(begin.rest, end.rest, Seq::empty());
            }
        }
    }
}

} // verus!
