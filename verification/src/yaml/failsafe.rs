//! The failsafe schema: every scalar stays the text that it is.
use std::collections::HashMap;

use vstd::prelude::*;
use vstd::string::*;

use super::error::{
    end_error, fault_error, span_error, unexpected, unexpected_error, ErrorView, ParseError,
};
use super::laws::{law_failsafe_node, located, only_texts, state_holds, tree_nodes};
use super::position::{byte_len, Span};
use super::scan::{
    item_kind, kind_shape, kind_view, scan, step_items, yaml_items, EventKind, ScanFault, ScanItem,
    ScanStep,
};
use super::value::{
    entry_trees, find_entry, has_key, key_text, keys_ascend, lemma_with_entry, stringify_key, trees,
    with_entry, Tree, YamlValue,
};
use crate::number::{decimal, decimal_text};
use crate::text::str_eq;

verus! {

/// How deep a document may be nested.
pub const MAX_DEPTH: usize = 128;

/// How many nodes a document may have, an alias counted as what it stands for.
pub const MAX_NODES: usize = 1_000_000;

/// The items without the comments.
pub open spec fn significant(items: Seq<ScanItem>) -> Seq<ScanItem>
    decreases items.len(),
{
    if items.len() == 0 {
        Seq::empty()
    } else if item_kind(items[0]) is Comment {
        significant(items.drop_first())
    } else {
        seq![items[0]] + significant(items.drop_first())
    }
}

/// What the parser knows: what is still to come, the anchored values with their node counts, and
/// how many nodes there were.
pub struct State {
    pub rest: Seq<ScanItem>,
    pub anchors: Map<usize, (Tree, nat)>,
    pub nodes: nat,
}

/// The next event, where it stands and its text in messages, or the error in its place.
pub open spec fn next_spec(input: Seq<char>, rest: Seq<ScanItem>) -> Result<
    (EventKind<Seq<char>>, Span, Seq<char>),
    ErrorView,
> {
    if rest.len() == 0 {
        Err(end_error(input, "unexpected end of YAML input"@))
    } else {
        match rest[0] {
            ScanItem::Event { kind, span, shown } => Ok((kind, span, shown)),
            ScanItem::Fault { fault, at, message } => Err(fault_error(input, fault, at, message)),
        }
    }
}

impl State {
    /// The state behind the next event.
    pub open spec fn skip(self) -> State {
        State { rest: self.rest.drop_first(), ..self }
    }

    /// The state with more nodes counted.
    pub open spec fn count(self, input: Seq<char>, nodes: nat, span: Span) -> Result<
        State,
        ErrorView,
    > {
        if self.nodes + nodes <= MAX_NODES {
            Ok(State { nodes: self.nodes + nodes, ..self })
        } else {
            Err(
                span_error(
                    input,
                    "YAML node count exceeds the limit of 1000000"@,
                    "RESOURCE_EXHAUSTION"@,
                    span,
                ),
            )
        }
    }

    /// The state with a value kept under its anchor, where it has one.
    pub open spec fn keep(self, anchor: usize, tree: Tree, nodes: nat) -> State {
        if anchor == 0 {
            self
        } else {
            State { anchors: self.anchors.insert(anchor, (tree, nodes)), ..self }
        }
    }
}

/// What a scalar stands for: its text, but a place left empty, which the scanner shows as a plain
/// `~` without extent, stands for no text.
pub open spec fn scalar_tree(text: Seq<char>, plain: bool, span: Span) -> Tree {
    if text == "~"@ && plain && span.start.index == span.end.index {
        Tree::Text(Seq::empty())
    } else {
        Tree::Text(text)
    }
}

/// The error of a key that occurs twice in one mapping.
pub open spec fn duplicate_error(input: Seq<char>, key: Seq<char>, span: Span) -> ErrorView {
    span_error(
        input,
        "duplicate mapping key: "@ + key + " at line "@ + decimal_text(span.start.line as nat)
            + " column "@ + decimal_text((span.start.col + 1) as nat),
        "DUPLICATE_KEY"@,
        span,
    )
}

/// The node that comes next, with the place where it starts.
pub open spec fn node_spec(input: Seq<char>, state: State, depth: nat) -> Result<
    (Tree, Span, State),
    ErrorView,
>
    decreases state.rest.len(), 0nat,
{
    match next_spec(input, state.rest) {
        Err(error) => Err(error),
        Ok((kind, span, shown)) => if depth >= MAX_DEPTH {
            Err(
                span_error(
                    input,
                    "YAML nesting exceeds the limit of 128"@,
                    "RESOURCE_EXHAUSTION"@,
                    span,
                ),
            )
        } else {
            match kind {
                EventKind::Scalar(text, plain, anchor) => match state.skip().count(input, 1, span) {
                    Err(error) => Err(error),
                    Ok(counted) => {
                        let tree = scalar_tree(text, plain, span);
                        Ok((tree, span, counted.keep(anchor, tree, 1)))
                    },
                },
                EventKind::SequenceStart(anchor) => match state.skip().count(input, 1, span) {
                    Err(error) => Err(error),
                    Ok(counted) => match items_spec(input, counted, depth, Seq::empty()) {
                        Err(error) => Err(error),
                        Ok((items, done)) => {
                            let tree = Tree::List(items);
                            Ok((tree, span, done.keep(anchor, tree, (done.nodes - state.nodes) as nat)))
                        },
                    },
                },
                EventKind::MappingStart(anchor) => match state.skip().count(input, 1, span) {
                    Err(error) => Err(error),
                    Ok(counted) => match entries_spec(input, counted, depth, Seq::empty()) {
                        Err(error) => Err(error),
                        Ok((entries, done)) => {
                            let tree = Tree::Mapping(entries);
                            Ok((tree, span, done.keep(anchor, tree, (done.nodes - state.nodes) as nat)))
                        },
                    },
                },
                EventKind::Alias(anchor) => if state.anchors.dom().contains(anchor) {
                    let (tree, nodes) = state.anchors[anchor];
                    match state.skip().count(input, nodes, span) {
                        Err(error) => Err(error),
                        Ok(counted) => Ok((tree, span, counted)),
                    }
                } else {
                    Err(
                        span_error(
                            input,
                            "alias refers to unknown anchor "@ + decimal_text(anchor as nat),
                            "BAD_ALIAS"@,
                            span,
                        ),
                    )
                },
                _ => Err(unexpected_error(input, "YAML value"@, shown, span)),
            }
        },
    }
}

/// The items of a sequence up to its end, behind those that were there before. A node takes at least
/// one event, so that fewer are left behind it in any case.
pub open spec fn items_spec(input: Seq<char>, state: State, depth: nat, items: Seq<Tree>) -> Result<
    (Seq<Tree>, State),
    ErrorView,
>
    decreases state.rest.len(), 1nat,
{
    match next_spec(input, state.rest) {
        Err(error) => Err(error),
        Ok((EventKind::SequenceEnd, _, _)) => Ok((items, state.skip())),
        Ok(_) => match node_spec(input, state, depth + 1) {
            Err(error) => Err(error),
            Ok((tree, _, next)) => if next.rest.len() < state.rest.len() {
                items_spec(input, next, depth, items.push(tree))
            } else {
                Err(end_error(input, Seq::empty()))
            },
        },
    }
}

/// The entries of a mapping up to its end, among those that were there before. As with the items of
/// a sequence, fewer events are left behind a node in any case.
pub open spec fn entries_spec(
    input: Seq<char>,
    state: State,
    depth: nat,
    entries: Seq<(Seq<char>, Tree)>,
) -> Result<(Seq<(Seq<char>, Tree)>, State), ErrorView>
    decreases state.rest.len(), 1nat,
{
    match next_spec(input, state.rest) {
        Err(error) => Err(error),
        Ok((EventKind::MappingEnd, _, _)) => Ok((entries, state.skip())),
        Ok(_) => match node_spec(input, state, depth + 1) {
            Err(error) => Err(error),
            Ok((key, key_span, between)) => if has_key(entries, key_text(key)) {
                Err(duplicate_error(input, key_text(key), key_span))
            } else if between.rest.len() < state.rest.len() {
                match node_spec(input, between, depth + 1) {
                    Err(error) => Err(error),
                    Ok((tree, _, next)) => if next.rest.len() < state.rest.len() {
                        entries_spec(input, next, depth, with_entry(entries, key_text(key), tree))
                    } else {
                        Err(end_error(input, Seq::empty()))
                    },
                }
            } else {
                Err(end_error(input, Seq::empty()))
            },
        },
    }
}

/// The document that the items make up.
pub open spec fn document_spec(input: Seq<char>, items: Seq<ScanItem>) -> Result<Tree, ErrorView> {
    let start = State { rest: items, anchors: Map::empty(), nodes: 0 };
    match next_spec(input, start.rest) {
        Err(error) => Err(error),
        Ok((EventKind::StreamStart, _, _)) => match next_spec(input, start.skip().rest) {
            Err(error) => Err(error),
            Ok((EventKind::StreamEnd, _, _)) => Ok(Tree::Null),
            Ok((EventKind::DocumentStart, _, _)) => match node_spec(input, start.skip().skip(), 0) {
                Err(error) => Err(error),
                Ok((tree, _, end)) => end_spec(input, end, tree),
            },
            Ok((_, span, shown)) => Err(unexpected_error(input, "document start"@, shown, span)),
        },
        Ok((_, span, shown)) => Err(unexpected_error(input, "stream start"@, shown, span)),
    }
}

/// The document, where nothing but the ends of document and stream follow it.
pub open spec fn end_spec(input: Seq<char>, state: State, tree: Tree) -> Result<Tree, ErrorView> {
    match next_spec(input, state.rest) {
        Err(error) => Err(error),
        Ok((EventKind::DocumentEnd, _, _)) => match next_spec(input, state.skip().rest) {
            Err(error) => Err(error),
            Ok((EventKind::StreamEnd, _, _)) => {
                let rest = state.skip().skip().rest;
                if rest.len() == 0 {
                    Ok(tree)
                } else if rest[0] is Fault {
                    Err(next_spec(input, rest)->Err_0)
                } else {
                    Err(end_error(input, "unexpected events after the YAML stream ended"@))
                }
            },
            Ok((EventKind::DocumentStart, span, _)) => Err(
                span_error(
                    input,
                    "source contains multiple YAML documents"@,
                    "MULTIPLE_DOCS"@,
                    span,
                ),
            ),
            Ok((_, span, shown)) => Err(unexpected_error(input, "stream end"@, shown, span)),
        },
        Ok((_, span, shown)) => Err(unexpected_error(input, "document end"@, shown, span)),
    }
}

/// An event that has to come at its place.
#[derive(Clone, Copy)]
pub enum Boundary {
    StreamStart,
    DocumentEnd,
}

impl Boundary {
    /// Whether an event is the one that has to come.
    pub open spec fn is_kind(self, kind: EventKind<Seq<char>>) -> bool {
        match self {
            Boundary::StreamStart => kind is StreamStart,
            Boundary::DocumentEnd => kind is DocumentEnd,
        }
    }

    /// The name of the event in messages.
    pub open spec fn name(self) -> Seq<char> {
        match self {
            Boundary::StreamStart => "stream start"@,
            Boundary::DocumentEnd => "document end"@,
        }
    }
}

/// An event with the place where it stands. Its text in messages is kept with it.
pub struct Token {
    pub kind: EventKind<String>,
    pub span: Span,
    pub shown: String,
}

impl Token {
    /// What the token holds.
    pub open spec fn parts(self) -> (EventKind<Seq<char>>, Span, Seq<char>) {
        (kind_view(self.kind), self.span, self.shown@)
    }
}

/// What steps hold, from the last to the first.
pub open spec fn backward_items(steps: Seq<ScanStep>) -> Seq<ScanItem> {
    Seq::new(steps.len(), |i: int| steps[steps.len() - 1 - i].item())
}

proof fn lemma_backward_items(steps: Seq<ScanStep>)
    requires
        steps.len() > 0,
    ensures
        backward_items(steps).len() > 0,
        backward_items(steps)[0] == steps.last().item(),
        backward_items(steps.drop_last()) == backward_items(steps).drop_first(),
{
    assert(backward_items(steps.drop_last()) =~= backward_items(steps).drop_first());
}

/// A parser of the failsafe schema.
pub struct FailsafeParser<'a> {
    input: &'a str,
    /// What is still to come, the next step last.
    steps: Vec<ScanStep>,
    anchors: HashMap<usize, (YamlValue, usize)>,
    nodes: usize,
}

impl<'a> FailsafeParser<'a> {
    /// The text that is parsed.
    pub closed spec fn text(self) -> Seq<char> {
        self.input@
    }

    /// What the parser knows.
    pub closed spec fn state(self) -> State {
        State {
            rest: significant(backward_items(self.steps@)),
            anchors: self.anchors@.map_values(|v: (YamlValue, usize)| (v.0.tree(), v.1 as nat)),
            nodes: self.nodes as nat,
        }
    }

    /// A parser that has the whole text before it.
    pub fn new(input: &'a str) -> (r: FailsafeParser<'a>)
        ensures
            r.text() == input@,
            r.state().rest == significant(yaml_items(input@)),
            r.state().anchors == Map::<usize, (Tree, nat)>::empty(),
            r.state().nodes == 0,
            state_holds(r.state()),
    {
        FailsafeParser::from_steps(input, scan(input))
    }

    /// A parser that has the steps of a text before it.
    pub fn from_steps(input: &'a str, steps: Vec<ScanStep>) -> (r: FailsafeParser<'a>)
        ensures
            r.text() == input@,
            r.state().rest == significant(step_items(steps@)),
            r.state().anchors == Map::<usize, (Tree, nat)>::empty(),
            r.state().nodes == 0,
    {
        let mut left = steps;
        let mut backward: Vec<ScanStep> = Vec::new();
        assert(step_items(left@) + backward_items(backward@) =~= step_items(steps@));
        loop
            invariant
                step_items(left@) + backward_items(backward@) == step_items(steps@),
            ensures
                left@.len() == 0,
            decreases left@.len(),
        {
            let ghost before = left@;
            let ghost behind = backward_items(backward@);
            match left.pop() {
                None => {
                    break;
                },
                Some(step) => {
                    backward.push(step);
                    proof {
                        lemma_backward_items(backward@);
                        assert(backward@.drop_last().push(step) =~= backward@);
                        assert(backward_items(backward@) =~= seq![step.item()] + behind);
                        assert(step_items(before) =~= step_items(left@).push(step.item()));
                        assert(step_items(before) + behind =~= step_items(left@) + (seq![
                            step.item(),
                        ] + behind));
                    }
                },
            }
        }
        assert(step_items(left@) + backward_items(backward@) =~= backward_items(backward@));
        let r = FailsafeParser { input, steps: backward, anchors: HashMap::new(), nodes: 0 };
        assert(r.state().anchors =~= Map::<usize, (Tree, nat)>::empty());
        r
    }

    /// Passes over the comments that come next.
    fn skip_comments(&mut self)
        ensures
            final(self).text() == old(self).text(),
            final(self).state() == old(self).state(),
            final(self).steps@.len() > 0 ==> !(item_kind(final(self).steps@.last().item()) is Comment),
    {
        loop
            invariant
                self.text() == old(self).text(),
                self.state() == old(self).state(),
            ensures
                self.steps@.len() > 0 ==> !(item_kind(self.steps@.last().item()) is Comment),
            decreases self.steps@.len(),
        {
            let n: usize = self.steps.len();
            if n == 0 {
                break;
            }
            match &self.steps[n - 1] {
                ScanStep::Event { kind: EventKind::Comment, .. } => {},
                _ => {
                    break;
                },
            }
            proof {
                lemma_backward_items(self.steps@);
            }
            self.steps.pop();
        }
    }

    /// Takes the next event, where there is one.
    fn next_event(&mut self) -> (r: Result<Option<Token>, ParseError>)
        ensures
            final(self).text() == old(self).text(),
            match r {
                Ok(None) => old(self).state().rest.len() == 0 && final(self).state() == old(
                    self,
                ).state(),
                Ok(Some(token)) => old(self).state().rest.len() > 0 && next_spec(
                    old(self).text(),
                    old(self).state().rest,
                ) == Ok::<_, ErrorView>(token.parts()) && final(self).state() == old(
                    self,
                ).state().skip(),
                Err(error) => old(self).state().rest.len() > 0 && old(self).state().rest[0] is Fault
                    && next_spec(old(self).text(), old(self).state().rest) == Err::<
                    (EventKind<Seq<char>>, Span, Seq<char>),
                    _,
                >(error@),
            },
    {
        self.skip_comments();
        proof {
            if self.steps@.len() > 0 {
                lemma_backward_items(self.steps@);
            }
        }
        match self.steps.pop() {
            None => Ok(None),
            Some(ScanStep::Fault(fault)) => Err(ParseError::from_scan_fault(self.input, fault)),
            Some(ScanStep::Event { kind, span, shown }) => {
                assert(self.state().rest =~= old(self).state().rest.drop_first());
                Ok(Some(Token { kind, span, shown }))
            },
        }
    }

    /// The next event without its text, which stays where it is.
    fn peek(&mut self) -> (r: Result<EventKind<()>, ParseError>)
        ensures
            final(self).text() == old(self).text(),
            final(self).state() == old(self).state(),
            match r {
                Ok(kind) => next_spec(old(self).text(), old(self).state().rest) matches Ok(token)
                    && kind_shape(token.0) == kind,
                Err(error) => next_spec(old(self).text(), old(self).state().rest) == Err::<
                    (EventKind<Seq<char>>, Span, Seq<char>),
                    _,
                >(error@),
            },
    {
        self.skip_comments();
        let n: usize = self.steps.len();
        if n == 0 {
            return Err(ParseError::at_end(self.input, "unexpected end of YAML input"));
        }
        proof {
            lemma_backward_items(self.steps@);
        }
        match &self.steps[n - 1] {
            ScanStep::Event { kind, .. } => Ok(kind.shape()),
            ScanStep::Fault(fault) => {
                let fault = ScanFault {
                    kind: fault.kind,
                    at: fault.at,
                    message: fault.message.clone(),
                };
                Err(ParseError::from_scan_fault(self.input, fault))
            },
        }
    }

    /// Takes the next event.
    fn next(&mut self) -> (r: Result<Token, ParseError>)
        ensures
            final(self).text() == old(self).text(),
            match r {
                Ok(token) => next_spec(old(self).text(), old(self).state().rest) == Ok::<_, ErrorView>(
                    token.parts(),
                ) && final(self).state() == old(self).state().skip(),
                Err(error) => next_spec(old(self).text(), old(self).state().rest) == Err::<
                    (EventKind<Seq<char>>, Span, Seq<char>),
                    _,
                >(error@),
            },
    {
        match self.next_event()? {
            Some(token) => Ok(token),
            None => Err(ParseError::at_end(self.input, "unexpected end of YAML input")),
        }
    }

    /// Counts nodes, up to the limit.
    fn add_nodes(&mut self, nodes: usize, span: &Span) -> (r: Result<(), ParseError>)
        requires
            old(self).state().nodes <= MAX_NODES,
        ensures
            final(self).text() == old(self).text(),
            match r {
                Ok(()) => old(self).state().count(old(self).text(), nodes as nat, *span) == Ok::<
                    _,
                    ErrorView,
                >(final(self).state()),
                Err(error) => old(self).state().count(old(self).text(), nodes as nat, *span) == Err::<
                    State,
                    _,
                >(error@),
            },
    {
        if let Some(sum) = self.nodes.checked_add(nodes) {
            if sum <= MAX_NODES {
                self.nodes = sum;
                return Ok(());
            }
        }
        Err(
            ParseError::at_span(
                self.input,
                "YAML node count exceeds the limit of 1000000".to_owned(),
                "RESOURCE_EXHAUSTION",
                span,
            ),
        )
    }

    /// Keeps a value under its anchor, where it has one.
    fn store_anchor(&mut self, anchor: usize, value: &YamlValue, nodes: usize)
        ensures
            final(self).text() == old(self).text(),
            final(self).state() == old(self).state().keep(anchor, value.tree(), nodes as nat),
    {
        broadcast use vstd::std_specs::hash::group_hash_axioms;

        if anchor != 0 {
            self.anchors.insert(anchor, (value.copy(), nodes));
            assert(self.state().anchors =~= old(self).state().anchors.insert(
                anchor,
                (value.tree(), nodes as nat),
            ));
        }
    }

    /// The anchored value that an alias stands for.
    fn anchored(&self, anchor: usize) -> (r: Option<(YamlValue, usize)>)
        ensures
            match r {
                Some((value, nodes)) => self.state().anchors.dom().contains(anchor)
                    && self.state().anchors[anchor] == (value.tree(), nodes as nat),
                None => !self.state().anchors.dom().contains(anchor),
            },
    {
        broadcast use vstd::std_specs::hash::group_hash_axioms;

        match self.anchors.get(&anchor) {
            Some(kept) => Some((kept.0.copy(), kept.1)),
            None => None,
        }
    }

    /// Parses the node that comes next, which lies that deep. Nothing is read at the depth limit or
    /// below it. Whatever is read has texts for scalars, its values are counted, and an error says where
    /// it is.
    pub fn parse_node(&mut self, depth: usize) -> (r: Result<(YamlValue, Span), ParseError>)
        requires
            old(self).state().nodes <= MAX_NODES,
        ensures
            final(self).text() == old(self).text(),
            match r {
                Ok((value, span)) => {
                    &&& node_spec(old(self).text(), old(self).state(), depth as nat) == Ok::<
                        _,
                        ErrorView,
                    >((value.tree(), span, final(self).state()))
                    &&& final(self).state().rest.len() < old(self).state().rest.len()
                    &&& old(self).state().nodes <= final(self).state().nodes <= MAX_NODES
                },
                Err(error) => node_spec(old(self).text(), old(self).state(), depth as nat) == Err::<
                    (Tree, Span, State),
                    _,
                >(error@),
            },
            depth >= MAX_DEPTH && next_spec(old(self).text(), old(self).state().rest) is Ok ==> match r {
                Ok(_) => false,
                Err(error) => error.code@ == "RESOURCE_EXHAUSTION"@,
            },
            state_holds(old(self).state()) ==> match r {
                Ok((value, _)) => {
                    &&& only_texts(value.tree())
                    &&& tree_nodes(value.tree()) <= final(self).state().nodes
                        - old(self).state().nodes
                    &&& state_holds(final(self).state())
                },
                Err(error) => located(old(self).text(), error@),
            },
        decreases MAX_DEPTH - depth, 1nat,
    {
        let bytes = self.input.as_bytes();
        assert(bytes.len() == byte_len(self.text()));
        proof {
            if state_holds(self.state()) {
                law_failsafe_node(self.text(), self.state(), depth as nat);
            }
        }
        let first_node: usize = self.nodes;
        let token = self.next()?;
        let span = token.span;
        if depth >= MAX_DEPTH {
            return Err(
                ParseError::at_span(
                    self.input,
                    "YAML nesting exceeds the limit of 128".to_owned(),
                    "RESOURCE_EXHAUSTION",
                    &span,
                ),
            );
        }
        match token.kind {
            EventKind::Scalar(text, plain, anchor) => {
                self.add_nodes(1, &span)?;
                let value = if str_eq(text.as_str(), "~") && plain && span.is_empty() {
                    YamlValue::String(String::new())
                } else {
                    YamlValue::String(text)
                };
                assert(value.tree() == scalar_tree(text@, plain, span));
                self.store_anchor(anchor, &value, 1);
                Ok((value, span))
            },
            EventKind::SequenceStart(anchor) => {
                self.add_nodes(1, &span)?;
                let items = self.parse_items(depth)?;
                let value = YamlValue::Array(items);
                assert(value.tree()->List_0 =~= trees(items@));
                self.store_anchor(anchor, &value, self.nodes - first_node);
                Ok((value, span))
            },
            EventKind::MappingStart(anchor) => {
                self.add_nodes(1, &span)?;
                let entries = self.parse_entries(depth)?;
                let value = YamlValue::Object(entries);
                assert(value.tree()->Mapping_0 =~= entry_trees(entries@));
                self.store_anchor(anchor, &value, self.nodes - first_node);
                Ok((value, span))
            },
            EventKind::Alias(anchor) => match self.anchored(anchor) {
                Some((value, nodes)) => {
                    self.add_nodes(nodes, &span)?;
                    Ok((value, span))
                },
                None => {
                    let mut message = "alias refers to unknown anchor ".to_owned();
                    message.append(decimal(anchor as u128).as_str());
                    Err(ParseError::at_span(self.input, message, "BAD_ALIAS", &span))
                },
            },
            _ => Err(unexpected(self.input, "YAML value", token.shown.as_str(), &span)),
        }
    }

    /// Parses the items of a sequence up to its end.
    fn parse_items(&mut self, depth: usize) -> (r: Result<Vec<YamlValue>, ParseError>)
        requires
            depth < MAX_DEPTH,
            old(self).state().nodes <= MAX_NODES,
        ensures
            final(self).text() == old(self).text(),
            match r {
                Ok(items) => {
                    &&& items_spec(old(self).text(), old(self).state(), depth as nat, Seq::empty())
                        == Ok::<_, ErrorView>((trees(items@), final(self).state()))
                    &&& final(self).state().rest.len() < old(self).state().rest.len()
                    &&& old(self).state().nodes <= final(self).state().nodes <= MAX_NODES
                },
                Err(error) => items_spec(
                    old(self).text(),
                    old(self).state(),
                    depth as nat,
                    Seq::empty(),
                ) == Err::<(Seq<Tree>, State), _>(error@),
            },
        decreases MAX_DEPTH - depth, 0nat,
    {
        let mut items: Vec<YamlValue> = Vec::new();
        assert(trees(items@) =~= Seq::empty());
        while !matches!(self.peek()?, EventKind::SequenceEnd)
            invariant
                depth < MAX_DEPTH,
                self.text() == old(self).text(),
                items_spec(self.text(), self.state(), depth as nat, trees(items@)) == items_spec(
                    old(self).text(),
                    old(self).state(),
                    depth as nat,
                    Seq::empty(),
                ),
                self.state().rest.len() <= old(self).state().rest.len(),
                old(self).state().nodes <= self.state().nodes <= MAX_NODES,
            decreases self.state().rest.len(),
        {
            let (value, _) = self.parse_node(depth + 1)?;
            let ghost before = trees(items@);
            items.push(value);
            assert(trees(items@) =~= before.push(value.tree()));
        }
        self.next()?;
        Ok(items)
    }

    /// Parses the entries of a mapping up to its end.
    fn parse_entries(&mut self, depth: usize) -> (r: Result<Vec<(String, YamlValue)>, ParseError>)
        requires
            depth < MAX_DEPTH,
            old(self).state().nodes <= MAX_NODES,
        ensures
            final(self).text() == old(self).text(),
            match r {
                Ok(entries) => {
                    &&& entries_spec(old(self).text(), old(self).state(), depth as nat, Seq::empty())
                        == Ok::<_, ErrorView>((entry_trees(entries@), final(self).state()))
                    &&& final(self).state().rest.len() < old(self).state().rest.len()
                    &&& old(self).state().nodes <= final(self).state().nodes <= MAX_NODES
                },
                Err(error) => entries_spec(
                    old(self).text(),
                    old(self).state(),
                    depth as nat,
                    Seq::empty(),
                ) == Err::<(Seq<(Seq<char>, Tree)>, State), _>(error@),
            },
        decreases MAX_DEPTH - depth, 0nat,
    {
        let mut entries: Vec<(String, YamlValue)> = Vec::new();
        assert(entry_trees(entries@) =~= Seq::empty());
        while !matches!(self.peek()?, EventKind::MappingEnd)
            invariant
                depth < MAX_DEPTH,
                self.text() == old(self).text(),
                entries_spec(self.text(), self.state(), depth as nat, entry_trees(entries@))
                    == entries_spec(
                    old(self).text(),
                    old(self).state(),
                    depth as nat,
                    Seq::empty(),
                ),
                keys_ascend(entry_trees(entries@)),
                self.state().rest.len() <= old(self).state().rest.len(),
                old(self).state().nodes <= self.state().nodes <= MAX_NODES,
            decreases self.state().rest.len(),
        {
            let (key, key_span) = self.parse_node(depth + 1)?;
            let key = stringify_key(&key);
            let (at, found) = find_entry(&entries, key.as_str());
            if found {
                let mut message = "duplicate mapping key: ".to_owned();
                message.append(key.as_str());
                message.append(" at line ");
                message.append(decimal(key_span.start.line as u128).as_str());
                message.append(" column ");
                message.append(decimal(key_span.start.col as u128 + 1).as_str());
                return Err(ParseError::at_span(self.input, message, "DUPLICATE_KEY", &key_span));
            }
            let (value, _) = self.parse_node(depth + 1)?;
            let ghost before = entry_trees(entries@);
            proof {
                lemma_with_entry(before, key@, value.tree());
            }
            entries.insert(at, (key, value));
            assert(entry_trees(entries@) =~= with_entry(before, key@, value.tree()));
        }
        self.next()?;
        Ok(entries)
    }

    /// Takes the next event, which has to be the given one.
    fn expect(&mut self, expected: Boundary) -> (r: Result<(), ParseError>)
        ensures
            final(self).text() == old(self).text(),
            match next_spec(old(self).text(), old(self).state().rest) {
                Ok((kind, span, shown)) => if expected.is_kind(kind) {
                    r is Ok && final(self).state() == old(self).state().skip()
                } else {
                    r matches Err(error) && error@ == unexpected_error(
                        old(self).text(),
                        expected.name(),
                        shown,
                        span,
                    )
                },
                Err(fault) => r matches Err(error) && error@ == fault,
            },
    {
        let token = self.next()?;
        match (expected, token.kind) {
            (Boundary::StreamStart, EventKind::StreamStart) => Ok(()),
            (Boundary::DocumentEnd, EventKind::DocumentEnd) => Ok(()),
            (Boundary::StreamStart, _) => Err(
                unexpected(self.input, "stream start", token.shown.as_str(), &token.span),
            ),
            (Boundary::DocumentEnd, _) => Err(
                unexpected(self.input, "document end", token.shown.as_str(), &token.span),
            ),
        }
    }

    /// Parses the whole document.
    pub fn parse(self) -> (r: Result<YamlValue, ParseError>)
        requires
            self.state().anchors == Map::<usize, (Tree, nat)>::empty(),
            self.state().nodes == 0,
        ensures
            match r {
                Ok(value) => document_spec(self.text(), self.state().rest) == Ok::<_, ErrorView>(
                    value.tree(),
                ),
                Err(error) => document_spec(self.text(), self.state().rest) == Err::<Tree, _>(
                    error@,
                ),
            },
    {
        let mut parser = self;
        parser.expect(Boundary::StreamStart)?;
        if matches!(parser.peek()?, EventKind::StreamEnd) {
            return Ok(YamlValue::Null);
        }
        let token = parser.next()?;
        match token.kind {
            EventKind::DocumentStart => {},
            _ => {
                return Err(
                    unexpected(parser.input, "document start", token.shown.as_str(), &token.span),
                );
            },
        }
        let (value, _) = parser.parse_node(0)?;
        parser.expect(Boundary::DocumentEnd)?;
        let token = parser.next()?;
        match token.kind {
            EventKind::StreamEnd => {},
            EventKind::DocumentStart => {
                return Err(
                    ParseError::at_span(
                        parser.input,
                        "source contains multiple YAML documents".to_owned(),
                        "MULTIPLE_DOCS",
                        &token.span,
                    ),
                );
            },
            _ => {
                return Err(
                    unexpected(parser.input, "stream end", token.shown.as_str(), &token.span),
                );
            },
        }
        if parser.next_event()?.is_some() {
            return Err(
                ParseError::at_end(parser.input, "unexpected events after the YAML stream ended"),
            );
        }
        Ok(value)
    }
}

/// Parses the document that the steps of a text make up.
pub fn parse_steps(input: &str, steps: Vec<ScanStep>) -> (r: Result<YamlValue, ParseError>)
    ensures
        document_spec(input@, significant(step_items(steps@))) == match r {
            Ok(value) => Ok::<Tree, ErrorView>(value.tree()),
            Err(error) => Err(error@),
        },
{
    FailsafeParser::from_steps(input, steps).parse()
}

} // verus!
