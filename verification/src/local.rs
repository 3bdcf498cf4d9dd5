//! The rules of the local substrate: which links of a document on disk lead to other
//! markdown documents, and what title a document gets.

use crate::markdown::{
    destinations_from_events, link_destinations, markdown_events, parse_events, title_from_events,
    title_of, HeadingRule,
};
use crate::paths::{base_directory, base_directory_of, file_name_of, joined_path, path_file_name, path_join};
use crate::fetch::{message_of, FetchError};
use crate::laws::{lemma_no_duplicates, lemma_origin_is_not_found, lemma_start_wf};
use crate::text::{before_first, optional_view, starts_with, take_before, texts_view};
use crate::traversal::{after, completes, Entry, Reply, Substrate, WalkState};
use crate::walk::{run, Source, Walk};
use vstd::prelude::*;
use vstd::string::*;

verus! {

/// A markdown document found on disk.
#[derive(Debug, Clone)]
pub struct LinkedDocument {
    /// The canonical absolute path of the document.
    pub path: String,
    /// Its title.
    pub title: String,
}

/// A link that names its scheme as `http` or `https`.
pub open spec fn is_external(link: Seq<char>) -> bool {
    "http://"@.is_prefix_of(link) || "https://"@.is_prefix_of(link)
}

/// Whether `link` names its scheme as `http` or `https`.
pub fn link_is_external(link: &str) -> (r: bool)
    ensures
        r == is_external(link@),
{
    starts_with(link, "http://") || starts_with(link, "https://")
}

/// The path that a link of a local document asks the filesystem for: the link
/// without its fragment, adjoined to the document's directory. External links are
/// dropped, and so are links that are empty once the fragment is gone, which covers
/// the pure anchors.
pub open spec fn local_target(base_dir: Seq<char>, link: Seq<char>) -> Option<Seq<char>> {
    let path = before_first(link, '#');
    if is_external(link) || path.len() == 0 {
        None
    } else {
        Some(joined_path(base_dir, path))
    }
}

/// `local_target` with the directory fixed.
pub open spec fn local_rule(base_dir: Seq<char>) -> spec_fn(Seq<char>) -> Option<Seq<char>> {
    |link: Seq<char>| local_target(base_dir, link)
}

/// The paths that the links of a local document ask the filesystem for, in document
/// order. `document` is the document's own path.
pub open spec fn local_links(content: Seq<char>, document: Seq<char>) -> Seq<Seq<char>> {
    link_destinations(markdown_events(content)).filter_map(local_rule(base_directory(document)))
}

/// The title that the content of a local document gives it: that of its first
/// heading of any level.
pub open spec fn local_title(content: Seq<char>) -> Option<Seq<char>> {
    title_of(markdown_events(content), HeadingRule::AnyLevel)
}

/// The title of a local document whose content gives none: its file name, or
/// `Untitled` where the path has no file name.
pub open spec fn local_fallback(path: Seq<char>) -> Seq<char> {
    match file_name_of(path) {
        Some(name) => name,
        None => "Untitled"@,
    }
}

/// Turns one link of a local document into the path to ask the filesystem for, or
/// drops it. Whether that path exists, and what it is in canonical form, is for the
/// caller to find out.
pub fn resolve_link(link: &str, base_dir: &str) -> (target: Option<String>)
    ensures
        optional_view(target) == local_target(base_dir@, link@),
{
    if link_is_external(link) {
        return None;
    }
    let path = take_before(link, '#');
    if path.as_str().unicode_len() == 0 {
        return None;
    }
    Some(path_join(base_dir, path.as_str()))
}

/// The paths that the links of a local document ask the filesystem for.
pub fn extract_links(content: &str, document: &str) -> (targets: Vec<String>)
    ensures
        texts_view(targets@) == local_links(content@, document@),
{
    let events = parse_events(content);
    let links = destinations_from_events(&events);
    let base_dir = base_directory_of(document);
    let ghost wanted = texts_view(links@);
    let ghost rule = local_rule(base_dir@);
    let mut targets: Vec<String> = Vec::new();
    let mut i: usize = 0;
    while i < links.len()
        invariant
            i <= links.len(),
            wanted == texts_view(links@),
            rule == local_rule(base_dir@),
            texts_view(targets@) == wanted.take(i as int).filter_map(rule),
        decreases links.len() - i,
    {
        proof {
            wanted.lemma_filter_map_take_succ(rule, i as int);
        }
        let ghost before = texts_view(targets@);
        match resolve_link(links[i].as_str(), base_dir.as_str()) {
            Some(target) => {
                targets.push(target);
                assert(texts_view(targets@) =~= before + seq![target@]);
            },
            None => {
                assert(texts_view(targets@) =~= before + Seq::<Seq<char>>::empty());
            },
        }
        i += 1;
    }
    assert(wanted.take(links.len() as int) == wanted);
    targets
}

/// The title that the content of a local document gives it.
pub fn extract_title(content: &str) -> (title: Option<String>)
    ensures
        optional_view(title) == local_title(content@),
{
    let events = parse_events(content);
    title_from_events(&events, HeadingRule::AnyLevel)
}

/// The title of a local document whose content gives none.
pub fn fallback_title(path: &str) -> (title: String)
    ensures
        title@ == local_fallback(path@),
{
    match path_file_name(path) {
        Some(name) => name,
        None => "Untitled".to_owned(),
    }
}

/// `documents` are the entries `found`, one for one, as documents on disk.
pub open spec fn lists(documents: Seq<LinkedDocument>, found: Seq<Entry>) -> bool {
    &&& documents.len() == found.len()
    &&& forall|i: int|
        0 <= i < documents.len() ==> (#[trigger] documents[i]).path@ == found[i].location
            && documents[i].title@ == found[i].title
}

/// No two of `documents` are at one path, and none is at `root`.
pub open spec fn distinct_from(documents: Seq<LinkedDocument>, root: Seq<char>) -> bool {
    &&& forall|i: int, j: int|
        0 <= i < j < documents.len() ==> (#[trigger] documents[i]).path@ != (
        #[trigger] documents[j]).path@
    &&& forall|i: int| 0 <= i < documents.len() ==> (#[trigger] documents[i]).path@ != root
}

/// What a traversal on disk that has come to its `end` gives: its documents, none
/// of them at the root, be it under its canonical path or under the name that the
/// caller gave it.
pub open spec fn local_outcome(
    end: WalkState,
    documents: Seq<LinkedDocument>,
    root_path: Seq<char>,
) -> bool {
    &&& lists(documents, end.found())
    &&& distinct_from(documents, end.root())
    &&& distinct_from(documents, root_path)
}

/// Starts the discovery on disk from `root_path`, given whether anything exists
/// there. Where nothing does, there is no traversal, and the failure says so.
/// Otherwise the walk is one that asks for the canonical form of the root first.
pub fn start_local(root_exists: bool, root_path: &str, max_depth: usize) -> (started: Result<
    Walk,
    String,
>)
    ensures
        match started {
            Ok(walk) => root_exists && walk@ == WalkState::start(
                Substrate::Local,
                root_path@,
                max_depth as nat,
            ) && walk@.wf(),
            Err(message) => !root_exists && message@ == message_of(
                FetchError::NotFound(root_path@),
            ),
        },
{
    if root_exists {
        Ok(Walk::start(Substrate::Local, root_path, max_depth))
    } else {
        Err(FetchError::NotFound(root_path.to_owned()).message())
    }
}

/// Discovers the markdown documents that can be reached from the document at
/// `root_path` by following at most `max_depth` links, taking from `source` what is
/// on disk. The source is asked whether anything exists at the root, and
/// `start_local` decides on its answer whether there is a traversal. Where there is
/// one, the documents are those of a traversal that started at the root and came to
/// its end; a document that cannot be read or a link that leads nowhere never makes
/// it fail.
pub fn discover_linked_documents<S: Source>(
    source: &mut S,
    root_path: &str,
    max_depth: usize,
) -> (found: Result<Vec<LinkedDocument>, String>)
    ensures
        match found {
            Ok(documents) => exists|replies: Seq<Reply<Seq<char>>>|
                #[trigger] completes(
                    WalkState::start(Substrate::Local, root_path@, max_depth as nat),
                    replies,
                ) && local_outcome(
                    after(
                        WalkState::start(Substrate::Local, root_path@, max_depth as nat),
                        replies,
                    ),
                    documents@,
                    root_path@,
                ),
            Err(message) => message@ == message_of(FetchError::NotFound(root_path@)),
        },
{
    let root_exists = source.is_there(root_path);
    let walk = match start_local(root_exists, root_path, max_depth) {
        Ok(walk) => walk,
        Err(message) => {
            return Err(message);
        },
    };
    let walk = run(walk, source);
    let documents = walk.linked_documents();
    proof {
        let start = WalkState::start(Substrate::Local, root_path@, max_depth as nat);
        let replies = choose|replies: Seq<Reply<Seq<char>>>|
            #[trigger] completes(start, replies) && walk@ == after(start, replies);
        lemma_no_duplicates(walk@);
        lemma_start_wf(Substrate::Local, root_path@, max_depth as nat);
        lemma_origin_is_not_found(start, replies);
        assert forall|i: int| 0 <= i < documents.len() implies (#[trigger] documents[i]).path@
            == walk@.found()[i].location && documents[i].title@ == walk@.found()[i].title by {
            let entry = walk@.found()[i];
        }
        assert forall|i: int, j: int| 0 <= i < j < documents.len() implies (
        #[trigger] documents[i]).path@ != (#[trigger] documents[j]).path@ by {
            let first = walk@.found()[i];
            let second = walk@.found()[j];
        }
        assert forall|i: int| 0 <= i < documents.len() implies (#[trigger] documents[i]).path@
            != root_path@ && documents[i].path@ != walk@.root() by {
            let entry = walk@.found()[i];
        }
        assert(local_outcome(after(start, replies), documents@, root_path@));
    }
    Ok(documents)
}

} // verus!
