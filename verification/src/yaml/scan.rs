//! The events of a YAML stream, as the scanner hands them out.
use serde_saphyr::granit_parser::{ErrorKind, Event, Parser, ScalarStyle, StrInput};
use vstd::prelude::*;

use super::position::{Mark, Span};

verus! {

/// What an event says. `T` is how its text is held.
pub enum EventKind<T> {
    StreamStart,
    StreamEnd,
    DocumentStart,
    DocumentEnd,
    /// An alias of the anchor with this number.
    Alias(usize),
    Comment,
    /// A scalar: its text, whether it is plain, and the number of its anchor or zero.
    Scalar(T, bool, usize),
    /// The start of a sequence, with the number of its anchor or zero.
    SequenceStart(usize),
    SequenceEnd,
    /// The start of a mapping, with the number of its anchor or zero.
    MappingStart(usize),
    MappingEnd,
    /// Any other event.
    Other,
    /// No event: the scanner found a fault.
    Fault,
}

/// What kind of fault the scanner found.
#[derive(Clone, Copy, Debug, Eq, PartialEq, Structural)]
pub enum FaultKind {
    UnknownAnchor,
    MultipleDocumentsUnsupported,
    TooManyComments,
    AnchorCountOverflow,
    Other,
}

/// A fault that the scanner found.
pub struct ScanFault {
    pub kind: FaultKind,
    pub at: Mark,
    pub message: String,
}

/// One thing that the scanner hands out.
pub enum ScanItem {
    /// An event, where it stands, and its text in messages.
    Event { kind: EventKind<Seq<char>>, span: Span, shown: Seq<char> },
    /// A fault, with its text.
    Fault { fault: FaultKind, at: Mark, message: Seq<char> },
}

/// An event, its text taken by its characters.
pub open spec fn kind_view(k: EventKind<String>) -> EventKind<Seq<char>> {
    match k {
        EventKind::StreamStart => EventKind::StreamStart,
        EventKind::StreamEnd => EventKind::StreamEnd,
        EventKind::DocumentStart => EventKind::DocumentStart,
        EventKind::DocumentEnd => EventKind::DocumentEnd,
        EventKind::Alias(anchor) => EventKind::Alias(anchor),
        EventKind::Comment => EventKind::Comment,
        EventKind::Scalar(text, plain, anchor) => EventKind::Scalar(text@, plain, anchor),
        EventKind::SequenceStart(anchor) => EventKind::SequenceStart(anchor),
        EventKind::SequenceEnd => EventKind::SequenceEnd,
        EventKind::MappingStart(anchor) => EventKind::MappingStart(anchor),
        EventKind::MappingEnd => EventKind::MappingEnd,
        EventKind::Other => EventKind::Other,
        EventKind::Fault => EventKind::Fault,
    }
}

/// The event of an item.
pub open spec fn item_kind(item: ScanItem) -> EventKind<Seq<char>> {
    match item {
        ScanItem::Event { kind, .. } => kind,
        ScanItem::Fault { .. } => EventKind::Fault,
    }
}

/// A YAML scanner over a text.
#[verifier::external_body]
pub struct EventStream<'a> {
    parser: Parser<'a, StrInput<'a>>,
}

/// What the scanner will hand out of a text.
pub uninterp spec fn yaml_items(input: Seq<char>) -> Seq<ScanItem>;

/// What the scanner has still to hand out.
pub uninterp spec fn pending(p: EventStream<'_>) -> Seq<ScanItem>;

/// `granit_parser::Parser::new_from_str` gives a scanner that has yet to hand out everything; what
/// that is depends on the text alone.
#[verifier::external_body]
pub(crate) fn open<'a>(input: &'a str) -> (r: EventStream<'a>)
    ensures
        pending(r) == yaml_items(input@),
{
    EventStream { parser: Parser::new_from_str(input) }
}

/// `granit_parser::Parser::peek` shows the next event, or the fault in its place, and leaves it
/// there; it shows nothing at the end.
#[verifier::external_body]
pub(crate) fn peek_kind<'a>(p: &mut EventStream<'a>) -> (r: Option<EventKind<String>>)
    ensures
        pending(*final(p)) == pending(*old(p)),
        r is Some <==> pending(*old(p)).len() > 0,
        r matches Some(kind) ==> kind_view(kind) == item_kind(pending(*old(p))[0]),
        r matches Some(kind) ==> (kind is Fault <==> pending(*old(p))[0] is Fault),
{
    let Ok((event, _)) = p.parser.peek()? else { return Some(EventKind::Fault) };
    Some(match event {
        Event::StreamStart => EventKind::StreamStart,
        Event::StreamEnd => EventKind::StreamEnd,
        Event::DocumentStart(..) => EventKind::DocumentStart,
        Event::DocumentEnd => EventKind::DocumentEnd,
        Event::Alias(anchor) => EventKind::Alias(*anchor),
        Event::Comment(..) => EventKind::Comment,
        Event::Scalar(t, s, a, _) => EventKind::Scalar(t.to_string(), *s == ScalarStyle::Plain, *a),
        Event::SequenceStart(_, anchor, _) => EventKind::SequenceStart(*anchor),
        Event::SequenceEnd => EventKind::SequenceEnd,
        Event::MappingStart(_, anchor, _) => EventKind::MappingStart(*anchor),
        Event::MappingEnd => EventKind::MappingEnd,
        _ => EventKind::Other,
    })
}

/// The span that `granit_parser::Parser::peek` shows beside the next event, by the places of its
/// two markers.
#[verifier::external_body]
pub(crate) fn peek_span<'a>(p: &mut EventStream<'a>) -> (r: Span)
    requires
        pending(*old(p)).len() > 0,
        pending(*old(p))[0] is Event,
    ensures
        pending(*final(p)) == pending(*old(p)),
        r == pending(*old(p))[0]->span,
{
    let (_, span) = p.parser.peek().unwrap().unwrap();
    let (a, b) = (span.start, span.end);
    Span {
        start: Mark { byte_offset: a.byte_offset(), index: a.index(), line: a.line(), col: a.col() },
        end: Mark { byte_offset: b.byte_offset(), index: b.index(), line: b.line(), col: b.col() },
    }
}

/// The event that `granit_parser::Parser::peek` shows, as its `Debug` writes it.
#[verifier::external_body]
pub(crate) fn peek_shown<'a>(p: &mut EventStream<'a>) -> (r: String)
    requires
        pending(*old(p)).len() > 0,
        pending(*old(p))[0] is Event,
    ensures
        pending(*final(p)) == pending(*old(p)),
        r@ == pending(*old(p))[0]->shown,
{
    let (event, _) = p.parser.peek().unwrap().unwrap();
    format!("{event:?}")
}

/// The fault that `granit_parser::Parser::peek` shows: its kind, its marker, and its text as its
/// `Display` writes it.
#[verifier::external_body]
pub(crate) fn peek_fault<'a>(p: &mut EventStream<'a>) -> (r: ScanFault)
    requires
        pending(*old(p)).len() > 0,
        pending(*old(p))[0] is Fault,
    ensures
        pending(*final(p)) == pending(*old(p)),
        pending(*old(p))[0] == (ScanItem::Fault { fault: r.kind, at: r.at, message: r.message@ }),
{
    let error = p.parser.peek().unwrap().unwrap_err();
    let m = error.marker();
    let at = Mark { byte_offset: m.byte_offset(), index: m.index(), line: m.line(), col: m.col() };
    let kind = match error.kind() {
        ErrorKind::UnknownAnchor => FaultKind::UnknownAnchor,
        ErrorKind::MultipleDocumentsUnsupported => FaultKind::MultipleDocumentsUnsupported,
        ErrorKind::TooManyComments => FaultKind::TooManyComments,
        ErrorKind::AnchorCountOverflow => FaultKind::AnchorCountOverflow,
        _ => FaultKind::Other,
    };
    ScanFault { kind, at, message: error.to_string() }
}

/// `granit_parser::Parser::next_event` takes the next event, or the fault in its place, away.
#[verifier::external_body]
pub(crate) fn advance<'a>(p: &mut EventStream<'a>)
    requires
        pending(*old(p)).len() > 0,
    ensures
        pending(*final(p)) == pending(*old(p)).drop_first(),
{
    p.parser.next_event();
}

/// An item that was handed out: an event, where it stands and its text in messages, or a fault.
pub enum ScanStep {
    Event { kind: EventKind<String>, span: Span, shown: String },
    Fault(ScanFault),
}

impl ScanStep {
    /// What the step holds.
    pub open spec fn item(self) -> ScanItem {
        match self {
            ScanStep::Event { kind, span, shown } => ScanItem::Event {
                kind: kind_view(kind),
                span,
                shown: shown@,
            },
            ScanStep::Fault(fault) => ScanItem::Fault {
                fault: fault.kind,
                at: fault.at,
                message: fault.message@,
            },
        }
    }
}

/// What steps hold.
pub open spec fn step_items(steps: Seq<ScanStep>) -> Seq<ScanItem> {
    steps.map_values(|step: ScanStep| step.item())
}

/// An event without its text.
pub open spec fn kind_shape<T>(kind: EventKind<T>) -> EventKind<()> {
    match kind {
        EventKind::StreamStart => EventKind::StreamStart,
        EventKind::StreamEnd => EventKind::StreamEnd,
        EventKind::DocumentStart => EventKind::DocumentStart,
        EventKind::DocumentEnd => EventKind::DocumentEnd,
        EventKind::Alias(anchor) => EventKind::Alias(anchor),
        EventKind::Comment => EventKind::Comment,
        EventKind::Scalar(_, plain, anchor) => EventKind::Scalar((), plain, anchor),
        EventKind::SequenceStart(anchor) => EventKind::SequenceStart(anchor),
        EventKind::SequenceEnd => EventKind::SequenceEnd,
        EventKind::MappingStart(anchor) => EventKind::MappingStart(anchor),
        EventKind::MappingEnd => EventKind::MappingEnd,
        EventKind::Other => EventKind::Other,
        EventKind::Fault => EventKind::Fault,
    }
}

impl EventKind<String> {
    /// The event without its text.
    pub fn shape(&self) -> (r: EventKind<()>)
        ensures
            r == kind_shape(kind_view(*self)),
    {
        match self {
            EventKind::StreamStart => EventKind::StreamStart,
            EventKind::StreamEnd => EventKind::StreamEnd,
            EventKind::DocumentStart => EventKind::DocumentStart,
            EventKind::DocumentEnd => EventKind::DocumentEnd,
            EventKind::Alias(anchor) => EventKind::Alias(*anchor),
            EventKind::Comment => EventKind::Comment,
            EventKind::Scalar(_, plain, anchor) => EventKind::Scalar((), *plain, *anchor),
            EventKind::SequenceStart(anchor) => EventKind::SequenceStart(*anchor),
            EventKind::SequenceEnd => EventKind::SequenceEnd,
            EventKind::MappingStart(anchor) => EventKind::MappingStart(*anchor),
            EventKind::MappingEnd => EventKind::MappingEnd,
            EventKind::Other => EventKind::Other,
            EventKind::Fault => EventKind::Fault,
        }
    }
}

/// Everything that the scanner hands out of a text.
pub fn scan(input: &str) -> (r: Vec<ScanStep>)
    ensures
        step_items(r@) == yaml_items(input@),
{
    let mut stream = open(input);
    let mut steps: Vec<ScanStep> = Vec::new();
    assert(step_items(steps@) + pending(stream) =~= yaml_items(input@));
    loop
        invariant
            step_items(steps@) + pending(stream) == yaml_items(input@),
        ensures
            pending(stream).len() == 0,
        decreases pending(stream).len(),
    {
        let ghost before = step_items(steps@);
        let ghost left = pending(stream);
        let step = match peek_kind(&mut stream) {
            None => {
                break;
            },
            Some(EventKind::Fault) => ScanStep::Fault(peek_fault(&mut stream)),
            Some(kind) => {
                let span = peek_span(&mut stream);
                let shown = peek_shown(&mut stream);
                ScanStep::Event { kind, span, shown }
            },
        };
        advance(&mut stream);
        steps.push(step);
        assert(step.item() == left[0]);
        assert(step_items(steps@) =~= before.push(left[0]));
        assert(before + left =~= before.push(left[0]) + left.drop_first());
    }
    assert(step_items(steps@) + pending(stream) =~= step_items(steps@));
    steps
}

} // verus!
