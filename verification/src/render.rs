//! The rules by which a document is prepared for display: the identifier that each
//! heading gets, and which image references are looked for on disk. Turning the
//! document into markup is the caller's part.

use crate::markdown::{
    display_events, events_view, heading_text, heading_text_from, parse_for_display,
    MarkdownEvent,
};
use crate::text::{chars_of, char_is_white_space, is_white_space, join, optional_view, starts_with};
use crate::unicode::{char_is_alphanumeric, is_alphanumeric, lowercase_of, text_lowercase};
use vstd::prelude::*;
use vstd::string::*;

verus! {

/// A character that an identifier keeps as it is: a letter, a digit, a hyphen or an
/// underscore.
pub open spec fn is_kept(c: char) -> bool {
    is_alphanumeric(c) || c == '-' || c == '_'
}

/// A character that an identifier leaves out: one that is neither kept nor white
/// space.
pub open spec fn is_gap(c: char) -> bool {
    !is_kept(c) && !is_white_space(c)
}

/// What an identifier holds in place of a character that is no gap: the character
/// itself where it is kept, a hyphen in place of white space.
pub open spec fn id_char(c: char) -> char {
    if is_kept(c) {
        c
    } else {
        '-'
    }
}

/// The identifier made of a text in lower case: the gaps are left out, and the
/// pieces that they leave are joined by hyphens.
pub open spec fn slug(s: Seq<char>) -> Seq<char>
    decreases s.len(),
{
    if s.len() == 0 {
        Seq::empty()
    } else {
        let before = slug(s.drop_last());
        let c = s.last();
        if is_gap(c) {
            before
        } else if before.len() > 0 && s.len() >= 2 && is_gap(s[s.len() - 2]) {
            before.push('-').push(id_char(c))
        } else {
            before.push(id_char(c))
        }
    }
}

/// The identifier generated for a heading with the given text.
pub open spec fn generated_id(text: Seq<char>) -> Seq<char> {
    slug(lowercase_of(text))
}

/// The identifier that a heading gets: the one generated from its text, or none
/// where it has no text.
pub open spec fn id_for(text: Seq<char>) -> Option<Seq<char>> {
    if text.len() == 0 {
        None
    } else {
        Some(generated_id(text))
    }
}

/// For each heading among the events from index `from` on, in document order, the
/// identifier that it gets.
pub open spec fn ids_from(events: Seq<MarkdownEvent<Seq<char>>>, from: int) -> Seq<
    Option<Seq<char>>,
>
    decreases events.len() - from,
{
    if from < 0 || from >= events.len() {
        Seq::empty()
    } else if events[from] is HeadingStart {
        seq![id_for(heading_text(events, from + 1))] + ids_from(events, from + 1)
    } else {
        ids_from(events, from + 1)
    }
}

/// The views of a sequence of optional strings.
pub open spec fn optionals_view(texts: Seq<Option<String>>) -> Seq<Option<Seq<char>>> {
    texts.map_values(|text: Option<String>| optional_view(text))
}

/// An image reference that is not looked for on disk: one with the scheme `http`,
/// `https` or `data`.
pub open spec fn is_foreign_image(destination: Seq<char>) -> bool {
    "http://"@.is_prefix_of(destination) || "https://"@.is_prefix_of(destination)
        || "data:"@.is_prefix_of(destination)
}

/// Generates the identifier for a heading with the given text.
pub fn generate_id(text: &str) -> (id: String)
    ensures
        id@ == generated_id(text@),
{
    let lower = text_lowercase(text);
    let chars = chars_of(lower.as_str());
    let mut id = String::new();
    let mut after_gap = false;
    let mut i: usize = 0;
    while i < chars.len()
        invariant
            i <= chars.len(),
            chars@ == lower@,
            id@ == slug(chars@.take(i as int)),
            after_gap == (i > 0 && is_gap(chars[i - 1])),
        decreases chars.len() - i,
    {
        let c = chars[i];
        let ghost upto = chars@.take(i + 1);
        assert(upto.drop_last() == chars@.take(i as int));
        assert(upto.last() == c);
        assert(i > 0 ==> upto[upto.len() - 2] == chars[i - 1]);
        let kept = char_is_alphanumeric(c) || c == '-' || c == '_';
        let gap = !kept && !char_is_white_space(c);
        if !gap {
            if after_gap && id.as_str().unicode_len() > 0 {
                id.append("-");
                proof {
                    reveal_strlit("-");
                }
                assert("-"@ =~= seq!['-']);
            }
            let ghost before = id@;
            if kept {
                let piece = lower.as_str().substring_char(i, i + 1);
                assert(piece@ =~= seq![c]);
                id.append(piece);
            } else {
                id.append("-");
                proof {
                    reveal_strlit("-");
                }
                assert("-"@ =~= seq!['-']);
            }
            assert(id@ =~= before.push(id_char(c)));
        }
        after_gap = gap;
        i += 1;
    }
    assert(chars@.take(chars.len() as int) == chars@);
    id
}

/// For each heading among `events`, in document order, the identifier that it gets.
pub fn heading_ids_of(events: &Vec<MarkdownEvent<String>>) -> (ids: Vec<Option<String>>)
    ensures
        optionals_view(ids@) == ids_from(events_view(events@), 0),
{
    let ghost model = events_view(events@);
    let mut ids: Vec<Option<String>> = Vec::new();
    let mut i: usize = 0;
    assert(optionals_view(ids@) + ids_from(model, 0) =~= ids_from(model, 0));
    while i < events.len()
        invariant
            i <= events.len(),
            model == events_view(events@),
            ids_from(model, 0) == optionals_view(ids@) + ids_from(model, i as int),
        decreases events.len() - i,
    {
        assert(model[i as int] == events[i as int]@);
        let ghost before = optionals_view(ids@);
        let opens = match &events[i] {
            MarkdownEvent::HeadingStart(_) => true,
            _ => false,
        };
        if opens {
            let text = heading_text_from(events, i + 1);
            let id = if text.as_str().unicode_len() == 0 {
                None
            } else {
                Some(generate_id(text.as_str()))
            };
            ids.push(id);
            assert(optionals_view(ids@) =~= before.push(id_for(heading_text(model, i + 1))));
            assert(before + (seq![id_for(heading_text(model, i + 1))] + ids_from(model, i + 1))
                =~= optionals_view(ids@) + ids_from(model, i + 1));
        }
        i += 1;
    }
    assert(optionals_view(ids@) + Seq::<Option<Seq<char>>>::empty() =~= optionals_view(ids@));
    ids
}

/// For each heading of a document, in document order, the identifier that it gets
/// when the document is displayed.
pub fn heading_ids(markdown: &str) -> (ids: Vec<Option<String>>)
    ensures
        optionals_view(ids@) == ids_from(display_events(markdown@), 0),
{
    let events = parse_for_display(markdown);
    heading_ids_of(&events)
}

/// Whether an image reference is looked for on disk, next to the document.
pub fn image_is_local(destination: &str) -> (r: bool)
    ensures
        r == !is_foreign_image(destination@),
{
    !(starts_with(destination, "http://") || starts_with(destination, "https://") || starts_with(
        destination,
        "data:",
    ))
}

/// The URL under which an image found on disk at `path` is displayed.
pub fn file_url(path: &str) -> (url: String)
    ensures
        url@ == "file://"@ + path@,
{
    join("file://", path)
}

} // verus!
