//! Markdown as plain text.
use std::iter::Peekable;

use pulldown_cmark::{Event, Options, Parser, Tag, TagEnd};
use vstd::prelude::*;
use vstd::string::*;

use crate::text::{law_trimmed, opt_text, trim, trimmed};

verus! {

/// What an element that ends was.
#[derive(Clone, Copy, Debug, Eq, PartialEq, Structural)]
pub enum EndTag {
    Paragraph,
    Heading,
    BlockQuote,
    CodeBlock,
    Item,
    List,
    Table,
    TableHead,
    TableRow,
    Other,
}

/// What a Markdown parser comes upon. `T` is how its text is held, `E` what is known of an element
/// that ends.
pub enum MarkdownEvent<T, E> {
    StartHeading,
    StartItem,
    Text(T),
    Code(T),
    Html(T),
    InlineHtml(T),
    SoftBreak,
    HardBreak,
    Rule,
    TaskListMarker(bool),
    End(E),
    Other,
}

/// A Markdown parser over a text.
#[verifier::external_body]
pub struct MarkdownStream<'a> {
    events: Peekable<Parser<'a>>,
}

/// What the parser will come upon in a text.
pub uninterp spec fn markdown_events(text: Seq<char>) -> Seq<MarkdownEvent<Seq<char>, EndTag>>;

/// What the parser has still to come upon.
pub uninterp spec fn upcoming(stream: MarkdownStream<'_>) -> Seq<MarkdownEvent<Seq<char>, EndTag>>;

/// Whether an event is the given one, but for what it is that ends.
pub open spec fn shows(
    part: MarkdownEvent<String, ()>,
    event: MarkdownEvent<Seq<char>, EndTag>,
) -> bool {
    match part {
        MarkdownEvent::StartHeading => event is StartHeading,
        MarkdownEvent::StartItem => event is StartItem,
        MarkdownEvent::Text(text) => event == MarkdownEvent::<Seq<char>, EndTag>::Text(text@),
        MarkdownEvent::Code(text) => event == MarkdownEvent::<Seq<char>, EndTag>::Code(text@),
        MarkdownEvent::Html(text) => event == MarkdownEvent::<Seq<char>, EndTag>::Html(text@),
        MarkdownEvent::InlineHtml(text) => event == MarkdownEvent::<Seq<char>, EndTag>::InlineHtml(
            text@,
        ),
        MarkdownEvent::SoftBreak => event is SoftBreak,
        MarkdownEvent::HardBreak => event is HardBreak,
        MarkdownEvent::Rule => event is Rule,
        MarkdownEvent::TaskListMarker(checked) => event == MarkdownEvent::<
            Seq<char>,
            EndTag,
        >::TaskListMarker(checked),
        MarkdownEvent::End(_) => event is End,
        MarkdownEvent::Other => event is Other,
    }
}

/// `pulldown_cmark::Parser::new_ext`, with every extension: what the parser comes upon depends on the
/// text alone.
#[verifier::external_body]
fn parse<'a>(text: &'a str) -> (r: MarkdownStream<'a>)
    ensures
        upcoming(r) == markdown_events(text@),
{
    MarkdownStream { events: Parser::new_ext(text, Options::all()).peekable() }
}

/// The next event of `pulldown_cmark::Parser`, which stays where it is; there is none at the end. Of
/// an element that starts it is told whether it is a heading or an item.
#[verifier::external_body]
fn peek_event<'a>(stream: &mut MarkdownStream<'a>) -> (r: Option<MarkdownEvent<String, ()>>)
    ensures
        upcoming(*final(stream)) == upcoming(*old(stream)),
        r is Some <==> upcoming(*old(stream)).len() > 0,
        r matches Some(part) ==> shows(part, upcoming(*old(stream))[0]),
{
    Some(match stream.events.peek()? {
        Event::Start(Tag::Heading { .. }) => MarkdownEvent::StartHeading,
        Event::Start(Tag::Item) => MarkdownEvent::StartItem,
        Event::Text(text) => MarkdownEvent::Text(text.to_string()),
        Event::Code(text) => MarkdownEvent::Code(text.to_string()),
        Event::Html(text) => MarkdownEvent::Html(text.to_string()),
        Event::InlineHtml(text) => MarkdownEvent::InlineHtml(text.to_string()),
        Event::SoftBreak => MarkdownEvent::SoftBreak,
        Event::HardBreak => MarkdownEvent::HardBreak,
        Event::Rule => MarkdownEvent::Rule,
        Event::TaskListMarker(checked) => MarkdownEvent::TaskListMarker(*checked),
        Event::End(_) => MarkdownEvent::End(()),
        _ => MarkdownEvent::Other,
    })
}

/// What the element is that the next event of `pulldown_cmark::Parser` ends.
#[verifier::external_body]
fn peek_end<'a>(stream: &mut MarkdownStream<'a>) -> (r: EndTag)
    requires
        upcoming(*old(stream)).len() > 0,
        upcoming(*old(stream))[0] is End,
    ensures
        upcoming(*final(stream)) == upcoming(*old(stream)),
        upcoming(*old(stream))[0] == MarkdownEvent::<Seq<char>, EndTag>::End(r),
{
    match stream.events.peek() {
        Some(Event::End(TagEnd::Paragraph)) => EndTag::Paragraph,
        Some(Event::End(TagEnd::Heading(..))) => EndTag::Heading,
        Some(Event::End(TagEnd::BlockQuote(..))) => EndTag::BlockQuote,
        Some(Event::End(TagEnd::CodeBlock)) => EndTag::CodeBlock,
        Some(Event::End(TagEnd::Item)) => EndTag::Item,
        Some(Event::End(TagEnd::List(..))) => EndTag::List,
        Some(Event::End(TagEnd::Table)) => EndTag::Table,
        Some(Event::End(TagEnd::TableHead)) => EndTag::TableHead,
        Some(Event::End(TagEnd::TableRow)) => EndTag::TableRow,
        _ => EndTag::Other,
    }
}

/// The iterator of `pulldown_cmark::Parser` goes past its next event.
#[verifier::external_body]
fn go_on<'a>(stream: &mut MarkdownStream<'a>)
    requires
        upcoming(*old(stream)).len() > 0,
    ensures
        upcoming(*final(stream)) == upcoming(*old(stream)).drop_first(),
{
    stream.events.next();
}

/// Plain text so far, and whether it holds a heading.
pub struct TextState {
    pub text: Seq<char>,
    pub seen_heading: bool,
}

/// Whether a text ends with a line break.
pub open spec fn ends_with_break(text: Seq<char>) -> bool {
    text.len() > 0 && text.last() == '\n'
}

/// A text that ends with a line break: itself, or with one more.
pub open spec fn with_break(text: Seq<char>) -> Seq<char> {
    if ends_with_break(text) {
        text
    } else {
        text.push('\n')
    }
}

/// A text that ends with an empty line.
pub open spec fn with_empty_line(text: Seq<char>) -> Seq<char> {
    if text.len() > 1 && ends_with_break(text) && text[text.len() - 2] == '\n' {
        text
    } else {
        with_break(text).push('\n')
    }
}

/// The text with what an event adds. A heading but the first stands behind an empty line, an item
/// starts a line, and what forms a block ends one.
pub open spec fn after_event(state: TextState, event: MarkdownEvent<Seq<char>, EndTag>) -> TextState {
    match event {
        MarkdownEvent::StartHeading => TextState {
            text: if state.seen_heading {
                with_empty_line(state.text)
            } else {
                state.text
            },
            seen_heading: true,
        },
        MarkdownEvent::StartItem => TextState {
            text: if state.text.len() == 0 {
                "- "@
            } else {
                with_break(state.text) + "- "@
            },
            ..state
        },
        MarkdownEvent::Text(text)
        | MarkdownEvent::Code(text)
        | MarkdownEvent::Html(text)
        | MarkdownEvent::InlineHtml(text) => TextState { text: state.text + text, ..state },
        MarkdownEvent::SoftBreak | MarkdownEvent::HardBreak => TextState {
            text: state.text.push('\n'),
            ..state
        },
        MarkdownEvent::Rule => TextState { text: with_break(state.text), ..state },
        MarkdownEvent::TaskListMarker(checked) => TextState {
            text: state.text + if checked {
                "[x] "@
            } else {
                "[ ] "@
            },
            ..state
        },
        MarkdownEvent::End(EndTag::Other) => state,
        MarkdownEvent::End(_) => TextState { text: with_break(state.text), ..state },
        MarkdownEvent::Other => state,
    }
}

/// The text with what events add.
pub open spec fn after_events(
    state: TextState,
    events: Seq<MarkdownEvent<Seq<char>, EndTag>>,
) -> TextState
    decreases events.len(),
{
    if events.len() == 0 {
        state
    } else {
        after_events(after_event(state, events[0]), events.drop_first())
    }
}

/// The plain text of events, without the white space around it, where any is left.
pub open spec fn plain_text(events: Seq<MarkdownEvent<Seq<char>, EndTag>>) -> Option<Seq<char>> {
    let state = after_events(TextState { text: Seq::empty(), seen_heading: false }, events);
    if trimmed(state.text).len() == 0 {
        None
    } else {
        Some(trimmed(state.text))
    }
}

/// Puts plain text together.
#[derive(Debug)]
pub struct PlainText {
    text: String,
    /// Whether the text ends with a line break.
    at_break: bool,
    /// Whether the text ends with an empty line.
    at_empty_line: bool,
    empty: bool,
    seen_heading: bool,
}

impl PlainText {
    /// The text so far.
    pub closed spec fn state(self) -> TextState {
        TextState { text: self.text@, seen_heading: self.seen_heading }
    }

    /// Whether what is kept of the end of the text is true of it.
    pub closed spec fn well_formed(self) -> bool {
        let text = self.text@;
        &&& self.at_break == ends_with_break(text)
        &&& self.at_empty_line == (text.len() > 1 && ends_with_break(text) && text[text.len() - 2]
            == '\n')
        &&& self.empty == (text.len() == 0)
    }

    /// No text.
    pub fn new() -> (r: PlainText)
        ensures
            r.well_formed(),
            r.state() == (TextState { text: Seq::empty(), seen_heading: false }),
    {
        let r = PlainText {
            text: String::new(),
            at_break: false,
            at_empty_line: false,
            empty: true,
            seen_heading: false,
        };
        assert(r.text@ =~= Seq::empty());
        r
    }

    fn push_break(&mut self)
        requires
            old(self).well_formed(),
        ensures
            final(self).well_formed(),
            final(self).state() == (TextState {
                text: old(self).state().text.push('\n'),
                ..old(self).state()
            }),
    {
        self.text.push('\n');
        self.at_empty_line = self.at_break;
        self.at_break = true;
        self.empty = false;
    }

    fn push_str(&mut self, part: &str)
        requires
            old(self).well_formed(),
        ensures
            final(self).well_formed(),
            final(self).state() == (TextState {
                text: old(self).state().text + part@,
                ..old(self).state()
            }),
    {
        let n: usize = part.unicode_len();
        if n == 0 {
            assert(self.text@ + part@ =~= self.text@);
            return;
        }
        let last = part.get_char(n - 1);
        let before = if n > 1 {
            part.get_char(n - 2) == '\n'
        } else {
            self.at_break
        };
        self.text.append(part);
        self.at_break = last == '\n';
        self.at_empty_line = self.at_break && before;
        self.empty = false;
        proof {
            let old_text = old(self).text@;
            let text = self.text@;
            assert(text.last() == part@[n - 1]);
            if n > 1 {
                assert(text[text.len() - 2] == part@[n - 2]);
            } else if old_text.len() > 0 {
                assert(text[text.len() - 2] == old_text.last());
            }
        }
    }

    fn end_line(&mut self)
        requires
            old(self).well_formed(),
        ensures
            final(self).well_formed(),
            final(self).state() == (TextState {
                text: with_break(old(self).state().text),
                ..old(self).state()
            }),
    {
        if !self.at_break {
            self.push_break();
        }
    }

    /// Adds what an event adds.
    pub fn push(&mut self, event: MarkdownEvent<String, EndTag>)
        requires
            old(self).well_formed(),
        ensures
            final(self).well_formed(),
            final(self).state() == after_event(old(self).state(), event_view(event)),
    {
        match event {
            MarkdownEvent::StartHeading => {
                if self.seen_heading && !self.at_empty_line {
                    self.end_line();
                    self.push_break();
                }
                self.seen_heading = true;
            },
            MarkdownEvent::StartItem => {
                if !self.empty {
                    self.end_line();
                }
                let ghost before = self.state().text;
                self.push_str("- ");
                assert(before.len() == 0 ==> before + "- "@ =~= "- "@);
            },
            MarkdownEvent::Text(text)
            | MarkdownEvent::Code(text)
            | MarkdownEvent::Html(text)
            | MarkdownEvent::InlineHtml(text) => {
                self.push_str(text.as_str());
            },
            MarkdownEvent::SoftBreak | MarkdownEvent::HardBreak => {
                self.push_break();
            },
            MarkdownEvent::Rule => {
                self.end_line();
            },
            MarkdownEvent::TaskListMarker(checked) => {
                self.push_str(
                    if checked {
                        "[x] "
                    } else {
                        "[ ] "
                    },
                );
            },
            MarkdownEvent::End(EndTag::Other) => {},
            MarkdownEvent::End(_) => {
                self.end_line();
            },
            MarkdownEvent::Other => {},
        }
    }

    /// The text without the white space around it, where any is left.
    pub fn finish(self) -> (r: Option<String>)
        ensures
            opt_text(r) == if trimmed(self.state().text).len() == 0 {
                None
            } else {
                Some(trimmed(self.state().text))
            },
    {
        let text = trim(self.text.as_str());
        if text.as_str().unicode_len() == 0 {
            None
        } else {
            Some(text)
        }
    }
}

/// What an event says.
pub open spec fn event_view(event: MarkdownEvent<String, EndTag>) -> MarkdownEvent<Seq<char>, EndTag> {
    match event {
        MarkdownEvent::StartHeading => MarkdownEvent::StartHeading,
        MarkdownEvent::StartItem => MarkdownEvent::StartItem,
        MarkdownEvent::Text(text) => MarkdownEvent::Text(text@),
        MarkdownEvent::Code(text) => MarkdownEvent::Code(text@),
        MarkdownEvent::Html(text) => MarkdownEvent::Html(text@),
        MarkdownEvent::InlineHtml(text) => MarkdownEvent::InlineHtml(text@),
        MarkdownEvent::SoftBreak => MarkdownEvent::SoftBreak,
        MarkdownEvent::HardBreak => MarkdownEvent::HardBreak,
        MarkdownEvent::Rule => MarkdownEvent::Rule,
        MarkdownEvent::TaskListMarker(checked) => MarkdownEvent::TaskListMarker(checked),
        MarkdownEvent::End(tag) => MarkdownEvent::End(tag),
        MarkdownEvent::Other => MarkdownEvent::Other,
    }
}

fn next_event<'a>(stream: &mut MarkdownStream<'a>) -> (r: Option<MarkdownEvent<String, EndTag>>)
    ensures
        r is Some <==> upcoming(*old(stream)).len() > 0,
        r matches Some(event) ==> event_view(event) == upcoming(*old(stream))[0] && upcoming(
            *final(stream),
        ) == upcoming(*old(stream)).drop_first(),
{
    let event = match peek_event(stream) {
        None => {
            return None;
        },
        Some(MarkdownEvent::End(_)) => MarkdownEvent::End(peek_end(stream)),
        Some(MarkdownEvent::StartHeading) => MarkdownEvent::StartHeading,
        Some(MarkdownEvent::StartItem) => MarkdownEvent::StartItem,
        Some(MarkdownEvent::Text(text)) => MarkdownEvent::Text(text),
        Some(MarkdownEvent::Code(text)) => MarkdownEvent::Code(text),
        Some(MarkdownEvent::Html(text)) => MarkdownEvent::Html(text),
        Some(MarkdownEvent::InlineHtml(text)) => MarkdownEvent::InlineHtml(text),
        Some(MarkdownEvent::SoftBreak) => MarkdownEvent::SoftBreak,
        Some(MarkdownEvent::HardBreak) => MarkdownEvent::HardBreak,
        Some(MarkdownEvent::Rule) => MarkdownEvent::Rule,
        Some(MarkdownEvent::TaskListMarker(checked)) => MarkdownEvent::TaskListMarker(checked),
        Some(MarkdownEvent::Other) => MarkdownEvent::Other,
    };
    go_on(stream);
    Some(event)
}

/// The plain text of Markdown, where it has any.
pub fn markdown_to_plain_text(markdown: &str) -> (r: Option<String>)
    ensures
        opt_text(r) == plain_text(markdown_events(markdown@)),
{
    let mut stream = parse(markdown);
    let mut text = PlainText::new();
    let ghost start = text.state();
    let ghost events = upcoming(stream);
    loop
        invariant_except_break
            text.well_formed(),
            after_events(start, events) == after_events(text.state(), upcoming(stream)),
        ensures
            text.state() == after_events(start, events),
        decreases upcoming(stream).len(),
    {
        match next_event(&mut stream) {
            Some(event) => text.push(event),
            None => {
                break;
            },
        }
    }
    text.finish()
}

/// The plain text of Markdown is never blank, and has no white space around it.
pub proof fn law_plain_text(events: Seq<MarkdownEvent<Seq<char>, EndTag>>)
    ensures
        plain_text(events) matches Some(text) ==> text.len() > 0 && trimmed(text) == text,
{
    let state = after_events(TextState { text: Seq::empty(), seen_heading: false }, events);
    law_trimmed(state.text);
}

/// Blocks stand on lines of their own: an item starts a line, what forms a block ends one, and a
/// heading that is not the first stands behind an empty line.
pub proof fn law_blocks(state: TextState, tag: EndTag)
    requires
        tag != EndTag::Other,
    ensures
        ends_with_break(after_event(state, MarkdownEvent::End(tag)).text),
        ({
            let item = after_event(state, MarkdownEvent::StartItem).text;
            let before = item.take(item.len() - 2);
            item == before + "- "@ && (before.len() == 0 || ends_with_break(before))
        }),
        state.seen_heading ==> ({
            let text = after_event(state, MarkdownEvent::StartHeading).text;
            text.len() > 1 && text.last() == '\n' && text[text.len() - 2] == '\n'
        }),
{
    reveal_strlit("- ");
    let item = after_event(state, MarkdownEvent::StartItem).text;
    let before = item.take(item.len() - 2);
    if state.text.len() == 0 {
        assert(before =~= Seq::<char>::empty());
    } else {
        assert(before =~= with_break(state.text));
    }
    assert(item =~= before + "- "@);
}

/// What stands in the text stays there: events only add to its end, and the texts among them are
/// added as they are.
pub proof fn law_text_grows(state: TextState, event: MarkdownEvent<Seq<char>, EndTag>)
    ensures
        state.text.is_prefix_of(after_event(state, event).text),
        event matches MarkdownEvent::Text(text) ==> after_event(state, event).text == state.text
            + text,
        event matches MarkdownEvent::Code(text) ==> after_event(state, event).text == state.text
            + text,
{
    let after = after_event(state, event).text;
    assert(state.text =~= after.subrange(0, state.text.len() as int));
}

} // verus!
