//! The rules of the remote substrate: which links of a document served over HTTP
//! lead to other markdown documents, how they resolve against the document's URL,
//! and what title a document gets.

use crate::local::{is_external, link_is_external};
use crate::markdown::{
    destinations_from_events, link_destinations, markdown_events, parse_events, title_from_events,
    title_of, HeadingRule,
};
use crate::text::{
    after_last, before_first, contains_char, ends_with, optional_view, take_after_last,
    take_before, texts_view,
};
use crate::fetch::message_of;
use crate::laws::{lemma_no_duplicates, lemma_origin_is_not_found, lemma_start_wf};
use crate::traversal::{after, completes, Entry, Reply, Substrate, WalkState};
use crate::walk::{run, Source, Walk};
use url::Url;
use vstd::prelude::*;
use vstd::string::*;

verus! {

/// A markdown document found at a URL.
#[derive(Debug, Clone)]
pub struct RemoteLinkedDocument {
    /// The absolute URL of the document.
    pub url: String,
    /// Its title.
    pub title: String,
}

/// What a reference resolves to against a base URL under the standard rules of URL
/// reference resolution, as the `url` crate applies them; nothing where the base is
/// no absolute URL or the reference cannot be resolved.
pub uninterp spec fn joined_url(base: Seq<char>, reference: Seq<char>) -> Option<Seq<char>>;

/// Parses `base` with `url::Url::parse`, resolves `reference` against it with
/// `url::Url::join`, and gives the result in its serialised form. Assumed: the
/// result depends on the two texts alone.
#[verifier::external_body]
pub(crate) fn url_join(base: &str, reference: &str) -> (joined: Option<String>)
    ensures
        optional_view(joined) == joined_url(base@, reference@),
{
    Url::parse(base).ok()?.join(reference).ok().map(|url| url.to_string())
}

/// What a link resolves to against the URL of the document that holds it: itself
/// where it names its scheme, else the link joined to the base.
pub open spec fn resolved_url(base: Seq<char>, link: Seq<char>) -> Option<Seq<char>> {
    if is_external(link) {
        Some(link)
    } else {
        joined_url(base, link)
    }
}

/// A link that ends in `.md` or `.markdown`.
pub open spec fn names_markdown(link: Seq<char>) -> bool {
    ".md"@.is_suffix_of(link) || ".markdown"@.is_suffix_of(link)
}

/// A link of a remote document is followed when it names a markdown file, or when
/// it is relative and its final segment holds no dot, in which case it is taken for
/// a markdown document served without an extension.
pub open spec fn is_followed(link: Seq<char>) -> bool {
    names_markdown(link) || (!is_external(link) && !after_last(link, '/').contains('.'))
}

/// The URL that a link of a remote document leads to: the link without its
/// fragment, resolved against the document's URL. Links that are empty once the
/// fragment is gone, which covers the pure anchors, and links that are not followed
/// are dropped, and so are links that do not resolve.
pub open spec fn remote_target(base: Seq<char>, link: Seq<char>) -> Option<Seq<char>> {
    let stripped = before_first(link, '#');
    if stripped.len() == 0 || !is_followed(stripped) {
        None
    } else {
        resolved_url(base, stripped)
    }
}

/// `remote_target` with the base fixed.
pub open spec fn remote_rule(base: Seq<char>) -> spec_fn(Seq<char>) -> Option<Seq<char>> {
    |link: Seq<char>| remote_target(base, link)
}

/// The URLs that the links of a remote document lead to, in document order.
/// `base` is the document's own URL.
pub open spec fn remote_links(content: Seq<char>, base: Seq<char>) -> Seq<Seq<char>> {
    link_destinations(markdown_events(content)).filter_map(remote_rule(base))
}

/// The title that the content of a remote document gives it: that of its first
/// top-level heading.
pub open spec fn remote_title(content: Seq<char>) -> Option<Seq<char>> {
    title_of(markdown_events(content), HeadingRule::TopLevel)
}

/// The title of a remote document whose content gives none, or that could not be
/// fetched: the final segment of its URL.
pub open spec fn remote_fallback(url: Seq<char>) -> Seq<char> {
    after_last(url, '/')
}

/// Resolves a link against the URL of the document that holds it.
pub fn resolve_url(base_url: &str, relative_url: &str) -> (resolved: Option<String>)
    ensures
        optional_view(resolved) == resolved_url(base_url@, relative_url@),
{
    if link_is_external(relative_url) {
        Some(relative_url.to_owned())
    } else {
        url_join(base_url, relative_url)
    }
}

/// Whether a link of a remote document is followed.
pub fn link_is_followed(link: &str) -> (r: bool)
    ensures
        r == is_followed(link@),
{
    if ends_with(link, ".md") || ends_with(link, ".markdown") {
        return true;
    }
    if link_is_external(link) {
        return false;
    }
    let segment = take_after_last(link, '/');
    !contains_char(segment.as_str(), '.')
}

/// The URL that one link of a remote document leads to, if it is followed.
pub fn resolve_remote_link(link: &str, base_url: &str) -> (target: Option<String>)
    ensures
        optional_view(target) == remote_target(base_url@, link@),
{
    let stripped = take_before(link, '#');
    if stripped.as_str().unicode_len() == 0 || !link_is_followed(stripped.as_str()) {
        None
    } else {
        resolve_url(base_url, stripped.as_str())
    }
}

/// The URLs that the links of a remote document lead to.
pub fn extract_remote_links(content: &str, base_url: &str) -> (targets: Vec<String>)
    ensures
        texts_view(targets@) == remote_links(content@, base_url@),
{
    let events = parse_events(content);
    let links = destinations_from_events(&events);
    let ghost wanted = texts_view(links@);
    let ghost rule = remote_rule(base_url@);
    let mut targets: Vec<String> = Vec::new();
    let mut i: usize = 0;
    while i < links.len()
        invariant
            i <= links.len(),
            wanted == texts_view(links@),
            rule == remote_rule(base_url@),
            texts_view(targets@) == wanted.take(i as int).filter_map(rule),
        decreases links.len() - i,
    {
        proof {
            wanted.lemma_filter_map_take_succ(rule, i as int);
        }
        let ghost before = texts_view(targets@);
        match resolve_remote_link(links[i].as_str(), base_url) {
            Some(target) => {
                targets.push(target);
                assert(texts_view(targets@) =~= before + seq![target@]);
            },
            None => {
                assert(texts_view(targets@) =~= before + Seq::<Seq<char>>::empty());
            },
        }
        i += 1;
    }
    assert(wanted.take(links.len() as int) == wanted);
    targets
}

/// The title that the content of a remote document gives it.
pub fn extract_title_from_content(content: &str) -> (title: Option<String>)
    ensures
        optional_view(title) == remote_title(content@),
{
    let events = parse_events(content);
    title_from_events(&events, HeadingRule::TopLevel)
}

/// The title of a remote document whose content gives none.
pub fn fallback_title_from_url(url: &str) -> (title: String)
    ensures
        title@ == remote_fallback(url@),
{
    take_after_last(url, '/')
}

/// `documents` are the entries `found`, one for one, as documents at URLs.
pub open spec fn lists_remote(documents: Seq<RemoteLinkedDocument>, found: Seq<Entry>) -> bool {
    &&& documents.len() == found.len()
    &&& forall|i: int|
        0 <= i < documents.len() ==> (#[trigger] documents[i]).url@ == found[i].location
            && documents[i].title@ == found[i].title
}

/// What a traversal that has come to its `end` gives: its documents, none of them
/// at the root, be it under the URL that was fetched for it or under the URL that
/// the caller gave; or the message of its failure.
pub open spec fn remote_outcome(
    end: WalkState,
    found: Result<Vec<RemoteLinkedDocument>, String>,
    root_url: Seq<char>,
) -> bool {
    match found {
        Ok(documents) => !(end.phase is Failed) && lists_remote(documents@, end.found())
            && distinct_urls(documents@, end.root()) && distinct_urls(documents@, root_url),
        Err(message) => end.phase is Failed && message@ == message_of(end.phase->Failed_0),
    }
}

/// No two of `documents` are at one URL, and none is at `root`.
pub open spec fn distinct_urls(documents: Seq<RemoteLinkedDocument>, root: Seq<char>) -> bool {
    &&& forall|i: int, j: int|
        0 <= i < j < documents.len() ==> (#[trigger] documents[i]).url@ != (
        #[trigger] documents[j]).url@
    &&& forall|i: int| 0 <= i < documents.len() ==> (#[trigger] documents[i]).url@ != root
}

/// Discovers the markdown documents that can be reached from the document at
/// `root_url` by following at most `max_depth` links, taking from `source` what the
/// network gives. A root that names a GitHub repository stands for the repository's
/// README. The documents are those of a traversal that started at the root and came
/// to its end. The discovery fails only where that traversal failed, which is where
/// the README was found on neither branch; a document that cannot be fetched never
/// makes it fail.
pub fn discover_remote_linked_documents<S: Source>(
    source: &mut S,
    root_url: String,
    max_depth: usize,
) -> (found: Result<Vec<RemoteLinkedDocument>, String>)
    ensures
        exists|replies: Seq<Reply<Seq<char>>>|
            #[trigger] completes(
                WalkState::start(Substrate::Remote, root_url@, max_depth as nat),
                replies,
            ) && remote_outcome(
                after(WalkState::start(Substrate::Remote, root_url@, max_depth as nat), replies),
                found,
                root_url@,
            ),
{
    let walk = run(Walk::start(Substrate::Remote, root_url.as_str(), max_depth), source);
    let ghost start = WalkState::start(Substrate::Remote, root_url@, max_depth as nat);
    let ghost replies = choose|replies: Seq<Reply<Seq<char>>>|
        #[trigger] completes(start, replies) && walk@ == after(start, replies);
    let found = match walk.failure() {
        Some(error) => Err(error.message()),
        None => {
            let documents = walk.remote_documents();
            assert forall|i: int| 0 <= i < documents.len() implies (#[trigger] documents[i]).url@
                == walk@.found()[i].location && documents[i].title@
                == walk@.found()[i].title by {
                let entry = walk@.found()[i];
            }
            proof {
                lemma_no_duplicates(walk@);
                assert forall|i: int, j: int| 0 <= i < j < documents.len() implies (
                #[trigger] documents[i]).url@ != (#[trigger] documents[j]).url@ by {
                    let first = walk@.found()[i];
                    let second = walk@.found()[j];
                }
                lemma_start_wf(Substrate::Remote, root_url@, max_depth as nat);
                lemma_origin_is_not_found(start, replies);
                assert forall|i: int| 0 <= i < documents.len() implies (
                #[trigger] documents[i]).url@ != walk@.root() && documents[i].url@
                    != walk@.origin by {
                    let entry = walk@.found()[i];
                }
            }
            Ok(documents)
        },
    };
    assert(remote_outcome(after(start, replies), found, root_url@));
    found
}

} // verus!
