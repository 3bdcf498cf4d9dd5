//! The structural events of a markdown document, and what the traversal reads from them:
//! the destinations of its links and the text of its first heading.

use crate::text::{optional_view, texts_view, trim, trimmed};
use pulldown_cmark::{Event, Options, Parser, Tag, TagEnd};
use vstd::prelude::*;
use vstd::string::*;

verus! {

/// One structural event of a markdown document, reduced to what link and title
/// extraction read. `T` is the type of text: `String` in executable code,
/// `Seq<char>` in specifications.
pub enum MarkdownEvent<T> {
    /// A link opens; the field is its destination as written in the document.
    LinkStart(T),
    /// A heading of the given level (1 for a top-level heading) opens.
    HeadingStart(u8),
    /// The heading that is open closes.
    HeadingEnd,
    /// A run of text.
    Text(T),
    /// Any other event.
    Other,
}

impl View for MarkdownEvent<String> {
    type V = MarkdownEvent<Seq<char>>;

    open spec fn view(&self) -> MarkdownEvent<Seq<char>> {
        match self {
            MarkdownEvent::LinkStart(destination) => MarkdownEvent::LinkStart(destination@),
            MarkdownEvent::HeadingStart(level) => MarkdownEvent::HeadingStart(*level),
            MarkdownEvent::HeadingEnd => MarkdownEvent::HeadingEnd,
            MarkdownEvent::Text(text) => MarkdownEvent::Text(text@),
            MarkdownEvent::Other => MarkdownEvent::Other,
        }
    }
}

/// The views of a sequence of events.
pub open spec fn events_view(events: Seq<MarkdownEvent<String>>) -> Seq<MarkdownEvent<Seq<char>>> {
    events.map_values(|event: MarkdownEvent<String>| event@)
}

/// The events that the markdown parser yields for a document, in document order,
/// with each of four extensions to CommonMark switched on or off.
pub uninterp spec fn parsed_events(
    content: Seq<char>,
    tables: bool,
    strikethrough: bool,
    tasklists: bool,
    heading_attributes: bool,
) -> Seq<MarkdownEvent<Seq<char>>>;

/// Runs `pulldown_cmark::Parser::new_ext` over `content`, with the four extensions
/// switched as the flags say and no other, and keeps of each event what
/// `MarkdownEvent` holds. Only this is assumed of the parser: that the events it
/// yields depend on the text and the flags alone.
#[verifier::external_body]
pub(crate) fn parse_with(
    content: &str,
    tables: bool,
    strikethrough: bool,
    tasklists: bool,
    heading_attributes: bool,
) -> (events: Vec<MarkdownEvent<String>>)
    ensures
        events_view(events@) == parsed_events(
            content@,
            tables,
            strikethrough,
            tasklists,
            heading_attributes,
        ),
{
    let mut options = Options::empty();
    options.set(Options::ENABLE_TABLES, tables);
    options.set(Options::ENABLE_STRIKETHROUGH, strikethrough);
    options.set(Options::ENABLE_TASKLISTS, tasklists);
    options.set(Options::ENABLE_HEADING_ATTRIBUTES, heading_attributes);
    Parser::new_ext(content, options).map(|event| match event {
        Event::Start(Tag::Link { dest_url, .. }) => MarkdownEvent::LinkStart(dest_url.to_string()),
        Event::Start(Tag::Heading { level, .. }) => MarkdownEvent::HeadingStart(level as u8),
        Event::End(TagEnd::Heading(_)) => MarkdownEvent::HeadingEnd,
        Event::Text(text) => MarkdownEvent::Text(text.to_string()),
        _ => MarkdownEvent::Other,
    }).collect()
}

/// The events of a document read as plain CommonMark, as the traversal reads it.
pub open spec fn markdown_events(content: Seq<char>) -> Seq<MarkdownEvent<Seq<char>>> {
    parsed_events(content, false, false, false, false)
}

/// The events of a document read with tables, strikethrough, task lists and heading
/// attributes, as it is read for display.
pub open spec fn display_events(content: Seq<char>) -> Seq<MarkdownEvent<Seq<char>>> {
    parsed_events(content, true, true, true, true)
}

/// Parses a document as plain CommonMark.
pub fn parse_events(content: &str) -> (events: Vec<MarkdownEvent<String>>)
    ensures
        events_view(events@) == markdown_events(content@),
{
    parse_with(content, false, false, false, false)
}

/// Parses a document as it is read for display.
pub fn parse_for_display(content: &str) -> (events: Vec<MarkdownEvent<String>>)
    ensures
        events_view(events@) == display_events(content@),
{
    parse_with(content, true, true, true, true)
}

/// Which headings may give a document its title.
#[derive(Clone, Copy, Debug, PartialEq, Eq, Structural)]
pub enum HeadingRule {
    /// The first heading, whatever its level.
    AnyLevel,
    /// The first top-level heading.
    TopLevel,
}

impl HeadingRule {
    /// Whether a heading of `level` may give the title.
    pub open spec fn admits(self, level: u8) -> bool {
        self == HeadingRule::AnyLevel || level == 1
    }
}

/// Index of the first event at or after `from` that opens a heading which `rule`
/// admits; `events.len()` when there is none.
pub open spec fn first_heading(
    events: Seq<MarkdownEvent<Seq<char>>>,
    rule: HeadingRule,
    from: int,
) -> int
    decreases events.len() - from,
{
    if from < 0 || from >= events.len() {
        events.len() as int
    } else if events[from] matches MarkdownEvent::HeadingStart(level) && rule.admits(level) {
        from
    } else {
        first_heading(events, rule, from + 1)
    }
}

/// The text runs from index `from` up to the next event that closes a heading, joined.
pub open spec fn heading_text(events: Seq<MarkdownEvent<Seq<char>>>, from: int) -> Seq<char>
    decreases events.len() - from,
{
    if from < 0 || from >= events.len() {
        Seq::empty()
    } else {
        match events[from] {
            MarkdownEvent::HeadingEnd => Seq::empty(),
            MarkdownEvent::Text(text) => text + heading_text(events, from + 1),
            _ => heading_text(events, from + 1),
        }
    }
}

/// The title that a document's events give it: the trimmed text of the first heading
/// that `rule` admits, or nothing when there is no such heading or its text trims to
/// nothing.
pub open spec fn title_of(events: Seq<MarkdownEvent<Seq<char>>>, rule: HeadingRule) -> Option<
    Seq<char>,
> {
    let at = first_heading(events, rule, 0);
    let text = trimmed(heading_text(events, at + 1));
    if at >= events.len() || text.len() == 0 {
        None
    } else {
        Some(text)
    }
}

/// The destinations of the links of a document, in document order.
pub open spec fn link_destinations(events: Seq<MarkdownEvent<Seq<char>>>) -> Seq<Seq<char>>
    decreases events.len(),
{
    if events.len() == 0 {
        Seq::empty()
    } else {
        let before = link_destinations(events.drop_last());
        match events.last() {
            MarkdownEvent::LinkStart(destination) => before.push(destination),
            _ => before,
        }
    }
}

/// The text runs of `events` from index `from` up to the next event that closes a
/// heading, joined.
pub fn heading_text_from(events: &Vec<MarkdownEvent<String>>, from: usize) -> (text: String)
    ensures
        text@ == heading_text(events_view(events@), from as int),
{
    let ghost model = events_view(events@);
    let mut text = String::new();
    let mut next: usize = from;
    assert(Seq::<char>::empty() + heading_text(model, from as int) =~= heading_text(
        model,
        from as int,
    ));
    loop
        invariant_except_break
            model == events_view(events@),
            heading_text(model, from as int) == text@ + heading_text(model, next as int),
        ensures
            heading_text(model, from as int) == text@,
        decreases events.len() - next,
    {
        if next >= events.len() {
            assert(text@ + Seq::<char>::empty() =~= text@);
            break ;
        }
        assert(model[next as int] == events[next as int]@);
        match &events[next] {
            MarkdownEvent::HeadingEnd => {
                assert(text@ + Seq::<char>::empty() =~= text@);
                break ;
            },
            MarkdownEvent::Text(run) => {
                let ghost before = text@;
                text.append(run.as_str());
                assert(before + (run@ + heading_text(model, next + 1)) =~= text@ + heading_text(
                    model,
                    next + 1,
                ));
            },
            _ => {},
        }
        next += 1;
    }
    text
}

/// The title of a parsed document under `rule`.
pub fn title_from_events(events: &Vec<MarkdownEvent<String>>, rule: HeadingRule) -> (title: Option<
    String,
>)
    ensures
        optional_view(title) == title_of(events_view(events@), rule),
{
    let ghost model = events_view(events@);
    let mut at: usize = 0;
    loop
        invariant_except_break
            at <= events.len(),
            model == events_view(events@),
            first_heading(model, rule, 0) == first_heading(model, rule, at as int),
        ensures
            at <= events.len(),
            model == events_view(events@),
            first_heading(model, rule, 0) == at,
        decreases events.len() - at,
    {
        if at >= events.len() {
            break ;
        }
        assert(model[at as int] == events[at as int]@);
        let opens = match &events[at] {
            MarkdownEvent::HeadingStart(level) => match rule {
                HeadingRule::AnyLevel => true,
                HeadingRule::TopLevel => *level == 1,
            },
            _ => false,
        };
        if opens {
            break ;
        }
        at += 1;
    }
    if at >= events.len() {
        return None;
    }
    let text = heading_text_from(events, at + 1);
    let clean = trim(text.as_str());
    if clean.as_str().unicode_len() == 0 {
        None
    } else {
        Some(clean)
    }
}

/// The destinations of the links of a parsed document, in document order.
pub fn destinations_from_events(events: &Vec<MarkdownEvent<String>>) -> (out: Vec<String>)
    ensures
        texts_view(out@) == link_destinations(events_view(events@)),
{
    let ghost model = events_view(events@);
    let mut out: Vec<String> = Vec::new();
    let mut i: usize = 0;
    while i < events.len()
        invariant
            i <= events.len(),
            model == events_view(events@),
            texts_view(out@) == link_destinations(model.take(i as int)),
        decreases events.len() - i,
    {
        assert(model.take(i + 1).drop_last() == model.take(i as int));
        assert(model.take(i + 1).last() == events[i as int]@);
        match &events[i] {
            MarkdownEvent::LinkStart(destination) => {
                let ghost before = texts_view(out@);
                out.push(destination.clone());
                assert(texts_view(out@) =~= before.push(destination@));
            },
            _ => {},
        }
        i += 1;
    }
    assert(model.take(events.len() as int) == model);
    out
}

} // verus!
