//! Markdown: what each event adds to the plain text, whatever stands there.
use vstd::prelude::*;

use crate::markdown::{after_event, after_events, event_view, plain_text, EndTag, MarkdownEvent, TextState};
use crate::text::{is_space, law_trimmed, trimmed};

verus! {

/// A task that is open shows an empty box, and one that is done a box with a cross, wherever it stands.
pub proof fn law_task_marker(state: TextState)
    ensures
        after_event(state, MarkdownEvent::TaskListMarker(true)).text == state.text + seq!['[', 'x', ']', ' '],
        after_event(state, MarkdownEvent::TaskListMarker(false)).text == state.text + seq!['[', ' ', ']', ' '],
{
    reveal_strlit("[x] ");
    reveal_strlit("[ ] ");
    assert("[x] "@ =~= seq!['[', 'x', ']', ' ']);
    assert("[ ] "@ =~= seq!['[', ' ', ']', ' ']);
}

/// What is text stands in the plain text as it is, behind what stood there: text, code and HTML.
pub proof fn law_text_as_it_is(state: TextState, text: Seq<char>)
    ensures
        after_event(state, MarkdownEvent::Text(text)).text == state.text + text,
        after_event(state, MarkdownEvent::Code(text)).text == state.text + text,
        after_event(state, MarkdownEvent::Html(text)).text == state.text + text,
        after_event(state, MarkdownEvent::InlineHtml(text)).text == state.text + text,
{
}

/// A break, soft or hard, is one line feed, wherever it stands.
pub proof fn law_break(state: TextState)
    ensures
        after_event(state, MarkdownEvent::SoftBreak).text == state.text + seq!['\n'],
        after_event(state, MarkdownEvent::HardBreak).text == state.text + seq!['\n'],
{
    assert(state.text.push('\n') =~= state.text + seq!['\n']);
}

/// Whether a text was brought to the end of a line: it ends with a line feed, and only one was added,
/// and only where none stood there.
pub open spec fn is_ended(before: Seq<char>, after: Seq<char>) -> bool {
    if before.len() > 0 && before[before.len() - 1] == '\n' {
        after == before
    } else {
        after == before + seq!['\n']
    }
}

/// A rule, and whatever forms a block, ends the line; any other element that ends adds nothing.
pub proof fn law_line_end(state: TextState, tag: EndTag)
    ensures
        is_ended(state.text, after_event(state, MarkdownEvent::Rule).text),
        tag != EndTag::Other ==> is_ended(
            state.text,
            after_event(state, MarkdownEvent::End(tag)).text,
        ),
        after_event(state, MarkdownEvent::End(EndTag::Other)).text == state.text,
        after_event(state, MarkdownEvent::Other).text == state.text,
{
    assert(state.text.push('\n') =~= state.text + seq!['\n']);
}

/// An item starts with a hyphen and a blank, at the start of the text or of a line.
pub proof fn law_item(state: TextState, line: Seq<char>)
    requires
        is_ended(state.text, line),
    ensures
        after_event(state, MarkdownEvent::StartItem).text == if state.text.len() == 0 {
            seq!['-', ' ']
        } else {
            line + seq!['-', ' ']
        },
{
    reveal_strlit("- ");
    assert("- "@ =~= seq!['-', ' ']);
    assert(state.text.push('\n') =~= state.text + seq!['\n']);
}

/// The first heading adds nothing; any other has an empty line before it, made of no more line feeds
/// than are missing.
pub proof fn law_heading(state: TextState)
    ensures
        !state.seen_heading ==> after_event(state, MarkdownEvent::StartHeading).text == state.text,
        state.seen_heading ==> ({
            let text = state.text;
            let n = text.len() as int;
            let after = after_event(state, MarkdownEvent::StartHeading).text;
            if n > 1 && text[n - 1] == '\n' && text[n - 2] == '\n' {
                after == text
            } else if n > 0 && text[n - 1] == '\n' {
                after == text + seq!['\n']
            } else {
                after == text + seq!['\n', '\n']
            }
        }),
{
    let text = state.text;
    assert(text.push('\n') =~= text + seq!['\n']);
    assert(text.push('\n').push('\n') =~= text + seq!['\n', '\n']);
}

/// A heading was seen from the first heading on, and from nothing else.
pub proof fn law_seen_heading(state: TextState, event: MarkdownEvent<Seq<char>, EndTag>)
    ensures
        after_event(state, event).seen_heading == (state.seen_heading || event is StartHeading),
{
}

/// Events are taken one after the other, each once: no events change nothing, one event adds what it
/// adds, and events behind others go on where those end.
pub proof fn law_one_after_the_other(
    state: TextState,
    first: Seq<MarkdownEvent<Seq<char>, EndTag>>,
    event: MarkdownEvent<Seq<char>, EndTag>,
    second: Seq<MarkdownEvent<Seq<char>, EndTag>>,
)
    ensures
        after_events(state, Seq::empty()) == state,
        after_events(state, seq![event]) == after_event(state, event),
        after_events(state, first + second) == after_events(after_events(state, first), second),
    decreases first.len(),
{
    assert(seq![event].drop_first() =~= Seq::<MarkdownEvent<Seq<char>, EndTag>>::empty());
    reveal_with_fuel(after_events, 2);
    if first.len() == 0 {
        assert(first + second =~= second);
    } else {
        law_one_after_the_other(after_event(state, first[0]), first.drop_first(), event, second);
        assert((first + second).drop_first() =~= first.drop_first() + second);
    }
}

/// The plain text is what the events add to no text at all, but for white space around it; there is none
/// where nothing else is left.
pub proof fn law_plain_text_of(events: Seq<MarkdownEvent<Seq<char>, EndTag>>)
    ensures
        ({
            let nothing: Seq<char> = Seq::empty();
            let text = after_events(TextState { text: nothing, seen_heading: false }, events).text;
            match plain_text(events) {
                None => forall|i: int| 0 <= i < text.len() ==> is_space(#[trigger] text[i]),
                Some(plain) => {
                    &&& plain.len() > 0
                    &&& !is_space(plain[0])
                    &&& !is_space(plain[plain.len() - 1])
                    &&& exists|before: Seq<char>, after: Seq<char>|
                        text == #[trigger] (before + plain + after) && (forall|i: int|
                            0 <= i < before.len() ==> is_space(#[trigger] before[i])) && (forall|i: int|
                            0 <= i < after.len() ==> is_space(#[trigger] after[i]))
                },
            }
        }),
{
    let text = after_events(TextState { text: Seq::empty(), seen_heading: false }, events).text;
    law_trimmed(text);
    let (before, after) = choose|before: Seq<char>, after: Seq<char>|
        text == #[trigger] (before + trimmed(text) + after) && (forall|k: int|
            0 <= k < before.len() ==> is_space(#[trigger] before[k])) && (forall|k: int|
            0 <= k < after.len() ==> is_space(#[trigger] after[k]));
    match plain_text(events) {
        None => {
            assert forall|i: int| 0 <= i < text.len() implies is_space(#[trigger] text[i]) by {
                if i < before.len() {
                    assert(text[i] == before[i]);
                } else {
                    assert(text[i] == after[i - before.len()]);
                }
            }
        },
        Some(plain) => {
            assert(text == before + plain + after);
        },
    }
}

/// An event says what it holds: the same kind, with the same text, state or element.
pub proof fn law_event_view(event: MarkdownEvent<String, EndTag>)
    ensures
        match (event, event_view(event)) {
            (MarkdownEvent::StartHeading, MarkdownEvent::StartHeading) => true,
            (MarkdownEvent::StartItem, MarkdownEvent::StartItem) => true,
            (MarkdownEvent::Text(text), MarkdownEvent::Text(view)) => view == text@,
            (MarkdownEvent::Code(text), MarkdownEvent::Code(view)) => view == text@,
            (MarkdownEvent::Html(text), MarkdownEvent::Html(view)) => view == text@,
            (MarkdownEvent::InlineHtml(text), MarkdownEvent::InlineHtml(view)) => view == text@,
            (MarkdownEvent::SoftBreak, MarkdownEvent::SoftBreak) => true,
            (MarkdownEvent::HardBreak, MarkdownEvent::HardBreak) => true,
            (MarkdownEvent::Rule, MarkdownEvent::Rule) => true,
            (MarkdownEvent::TaskListMarker(checked), MarkdownEvent::TaskListMarker(view)) => view
                == checked,
            (MarkdownEvent::End(tag), MarkdownEvent::End(view)) => view == tag,
            (MarkdownEvent::Other, MarkdownEvent::Other) => true,
            _ => false,
        },
{
}

} // verus!
