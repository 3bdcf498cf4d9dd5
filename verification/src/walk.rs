//! The executable traversal. A `Walk` is driven by its caller: ask it what it needs
//! with `request`, do that, hand the outcome to `deliver`, and go on with the walk
//! that comes back until it asks for nothing more. Every step is proved to be the
//! step that the machine in `traversal` takes.

use crate::fetch::{fetched_view, FetchError, Fetched};
use crate::github::{open_remote_file, Opened, Opening};
use crate::laws::{lemma_deliver_decreases, lemma_deliver_wf, lemma_start_wf};
use crate::local::{extract_links, extract_title, fallback_title, LinkedDocument};
use crate::paths::is_markdown_path;
use crate::remote::{
    extract_remote_links, extract_title_from_content, fallback_title_from_url,
    RemoteLinkedDocument,
};
use crate::text::{optional_view, texts_view};
use crate::traversal::{
    after, answers, completes, links_in, root_entry, title_in, Entry, Phase, Reply, Request,
    Substrate, WalkState,
};
use vstd::prelude::*;
use vstd::string::*;

verus! {

/// A location that a walk has accepted: the root, or a discovered document.
pub struct Document {
    /// Where the document is.
    pub location: String,
    /// Its title; empty for the root.
    pub title: String,
    /// The number of links followed from the root to reach it.
    pub depth: usize,
    /// The index, among the walk's entries, of the document that linked to it.
    pub parent: usize,
}

impl View for Document {
    type V = Entry;

    open spec fn view(&self) -> Entry {
        Entry {
            location: self.location@,
            title: self.title@,
            depth: self.depth as nat,
            parent: self.parent as nat,
        }
    }
}

/// The views of a sequence of documents.
pub open spec fn documents_view(documents: Seq<Document>) -> Seq<Entry> {
    documents.map_values(|document: Document| document@)
}

impl View for Request<String> {
    type V = Request<Seq<char>>;

    open spec fn view(&self) -> Request<Seq<char>> {
        match self {
            Request::Read(location) => Request::Read(location@),
            Request::Resolve(path) => Request::Resolve(path@),
            Request::Title(location) => Request::Title(location@),
            Request::Done => Request::Done,
        }
    }
}

impl View for Reply<String> {
    type V = Reply<Seq<char>>;

    open spec fn view(&self) -> Reply<Seq<char>> {
        match self {
            Reply::Content(fetched) => Reply::Content(fetched_view(*fetched)),
            Reply::Resolved(resolved) => Reply::Resolved(optional_view(*resolved)),
        }
    }
}

impl View for Phase<String> {
    type V = Phase<Seq<char>>;

    open spec fn view(&self) -> Phase<Seq<char>> {
        match self {
            Phase::Opening(opening) => Phase::Opening(opening@),
            Phase::Reading => Phase::Reading,
            Phase::Rooting => Phase::Rooting,
            Phase::Resolving => Phase::Resolving,
            Phase::Titling(location) => Phase::Titling(location@),
            Phase::Finished => Phase::Finished,
            Phase::Failed(error) => Phase::Failed(error@),
        }
    }
}

/// The fields of a walk, without its invariant.
struct Parts {
    substrate: Substrate,
    origin: String,
    max_depth: usize,
    entries: Vec<Document>,
    head: usize,
    level_end: usize,
    candidates: Vec<String>,
    cursor: usize,
    phase: Phase<String>,
}

impl View for Parts {
    type V = WalkState;

    closed spec fn view(&self) -> WalkState {
        WalkState {
            substrate: self.substrate,
            origin: self.origin@,
            max_depth: self.max_depth as nat,
            entries: documents_view(self.entries@),
            head: self.head as nat,
            level_end: self.level_end as nat,
            candidates: texts_view(self.candidates@),
            cursor: self.cursor as nat,
            phase: self.phase@,
        }
    }
}

/// Whether `location` is the root as the caller named it, or one of `entries` is at
/// it.
fn is_visited(origin: &String, entries: &Vec<Document>, location: &String) -> (r: bool)
    ensures
        r == (location@ == origin@ || exists|i: int|
            0 <= i < entries.len() && (#[trigger] documents_view(entries@)[i]).location
                == location@),
{
    if *location == *origin {
        return true;
    }
    let mut i: usize = 0;
    while i < entries.len()
        invariant
            i <= entries.len(),
            forall|j: int|
                0 <= j < i ==> (#[trigger] documents_view(entries@)[j]).location != location@,
        decreases entries.len() - i,
    {
        assert(documents_view(entries@)[i as int] == entries[i as int]@);
        if entries[i].location == *location {
            return true;
        }
        i += 1;
    }
    false
}

impl Parts {
    /// Takes the next document from the queue.
    fn next_document(self) -> (next: Parts)
        ensures
            next@ == self@.next_document(),
    {
        let mut parts = self;
        while parts.head < parts.entries.len()
            invariant
                parts@.next_document() == self@.next_document(),
            decreases parts.entries.len() - parts.head,
        {
            let ghost before = parts@;
            assert(before.entries[parts.head as int] == parts.entries[parts.head as int]@);
            let shallow = parts.entries[parts.head].depth < parts.max_depth;
            if parts.head == parts.level_end {
                parts.level_end = parts.entries.len();
            }
            parts.head = parts.head + 1;
            if shallow {
                parts.candidates = Vec::new();
                parts.cursor = 0;
                parts.phase = Phase::Reading;
                assert(parts@.candidates =~= Seq::<Seq<char>>::empty());
                assert(parts@ == before.next_document());
                return parts;
            }
            assert(parts@.next_document() == before.next_document());
        }
        let ghost before = parts@;
        parts.phase = Phase::Finished;
        assert(parts@ == before.next_document());
        parts
    }

    /// Moves on from the cursor to the next candidate that calls for a request.
    fn seek(self) -> (next: Parts)
        ensures
            next@ == self@.seek(),
    {
        let mut parts = self;
        while parts.cursor < parts.candidates.len()
            invariant
                parts@.seek() == self@.seek(),
            decreases parts.candidates.len() - parts.cursor,
        {
            let ghost before = parts@;
            assert(before.candidates[parts.cursor as int] == parts.candidates[parts.cursor as int]@);
            match parts.substrate {
                Substrate::Local => {
                    parts.phase = Phase::Resolving;
                    assert(parts@ == before.seek());
                    return parts;
                },
                Substrate::Remote => {
                    if is_visited(
                        &parts.origin,
                        &parts.entries,
                        &parts.candidates[parts.cursor],
                    ) {
                        parts.cursor = parts.cursor + 1;
                        assert(parts@.seek() == before.seek());
                    } else {
                        let location = parts.candidates[parts.cursor].clone();
                        parts.phase = Phase::Titling(location);
                        assert(parts@ == before.seek());
                        return parts;
                    }
                },
            }
        }
        parts.next_document()
    }

    /// Takes the content that a request gave, or why it could not be had.
    fn content(self, fetched: Fetched) -> (next: Parts)
        requires
            self@.wf(),
        ensures
            next@ == self@.deliver(Reply::Content(fetched_view(fetched))),
    {
        match &self.phase {
            Phase::Opening(_) => self.opened(fetched),
            Phase::Reading => self.read(fetched),
            Phase::Titling(_) => self.titled(fetched),
            _ => self,
        }
    }

    /// Takes the canonical form that a request gave, if any.
    fn resolution(self, resolved: Option<String>) -> (next: Parts)
        requires
            self@.wf(),
        ensures
            next@ == self@.deliver(Reply::Resolved(optional_view(resolved))),
    {
        match &self.phase {
            Phase::Rooting => self.rooted(resolved),
            Phase::Resolving => self.resolved(resolved),
            _ => self,
        }
    }

    /// Takes what fetching the root's README gave.
    fn opened(self, fetched: Fetched) -> (next: Parts)
        requires
            self@.wf(),
            self@.phase is Opening,
        ensures
            next@ == self@.deliver(Reply::Content(fetched_view(fetched))),
    {
        let ghost before = self@;
        let mut parts = self;
        let phase = parts.phase;
        parts.phase = Phase::Finished;
        match phase {
            Phase::Opening(opening) => match opening.settle(fetched) {
                Opened::Loaded { content, url } => {
                    if 0 < parts.max_depth {
                        assert(parts@.entries[0] == parts.entries[0]@);
                        parts.candidates = links_of(
                            parts.substrate,
                            content.as_str(),
                            parts.entries[0].location.as_str(),
                        );
                        parts.head = 1;
                        parts.cursor = 0;
                        proof {
                            lemma_seek_ignores_phase(
                                parts@,
                                WalkState { head: 1, ..before }.with_candidates(
                                    links_in(before.substrate, content@, before.root()),
                                ),
                            );
                        }
                        parts.seek()
                    } else {
                        proof {
                            lemma_next_document_ignores_phase(parts@, before);
                        }
                        parts.next_document()
                    }
                },
                Opened::Retry(next) => {
                    let mut entries: Vec<Document> = Vec::new();
                    entries.push(
                        Document {
                            location: next.url.clone(),
                            title: String::new(),
                            depth: 0,
                            parent: 0,
                        },
                    );
                    parts.entries = entries;
                    parts.phase = Phase::Opening(next);
                    assert(parts@.entries =~= seq![root_entry(next@.url)]);
                    parts
                },
                Opened::Failed(error) => {
                    parts.phase = Phase::Failed(error);
                    parts
                },
            },
            _ => parts,
        }
    }

    /// Takes the canonical form of the root.
    fn rooted(self, resolved: Option<String>) -> (next: Parts)
        requires
            self@.wf(),
            self@.phase is Rooting,
        ensures
            next@ == self@.deliver(Reply::Resolved(optional_view(resolved))),
    {
        let ghost before = self@;
        let mut parts = self;
        let location = match resolved {
            Some(canonical) => canonical,
            None => parts.origin.clone(),
        };
        let mut entries: Vec<Document> = Vec::new();
        entries.push(Document { location, title: String::new(), depth: 0, parent: 0 });
        parts.entries = entries;
        parts.phase = Phase::Finished;
        assert(parts@.entries =~= seq![root_entry(location@)]);
        parts.next_document()
    }

    /// Takes what fetching the current entry gave.
    fn read(self, fetched: Fetched) -> (next: Parts)
        requires
            self@.wf(),
            self@.phase is Reading,
        ensures
            next@ == self@.deliver(Reply::Content(fetched_view(fetched))),
    {
        let ghost before = self@;
        let mut parts = self;
        assert(before.entries[parts.head - 1] == parts.entries[parts.head - 1]@);
        let links = match fetched {
            Ok(content) => links_of(
                parts.substrate,
                content.as_str(),
                parts.entries[parts.head - 1].location.as_str(),
            ),
            Err(_) => Vec::new(),
        };
        let ghost wanted = match fetched_view(fetched) {
            Ok(content) => links_in(before.substrate, content, before.current().location),
            Err(_) => Seq::<Seq<char>>::empty(),
        };
        assert(texts_view(links@) =~= wanted);
        parts.candidates = links;
        parts.cursor = 0;
        proof {
            lemma_seek_ignores_phase(parts@, before.with_candidates(wanted));
        }
        parts.seek()
    }

    /// Takes the canonical form of the candidate under the cursor.
    fn resolved(self, resolved: Option<String>) -> (next: Parts)
        requires
            self@.wf(),
            self@.phase is Resolving,
        ensures
            next@ == self@.deliver(Reply::Resolved(optional_view(resolved))),
    {
        let ghost before = self@;
        let mut parts = self;
        let accepted = match &resolved {
            Some(path) => is_markdown_path(path.as_str()) && !is_visited(
                &parts.origin,
                &parts.entries,
                path,
            ),
            None => false,
        };
        if accepted {
            let path = resolved.unwrap();
            parts.phase = Phase::Titling(path);
            parts
        } else {
            assert(before.cursor == parts.cursor && before.candidates.len()
                == parts.candidates.len());
            parts.cursor = parts.cursor + 1;
            proof {
                lemma_seek_ignores_phase(parts@, before.passed());
            }
            parts.seek()
        }
    }

    /// Takes what fetching the location that awaits its title gave.
    fn titled(self, fetched: Fetched) -> (next: Parts)
        requires
            self@.wf(),
            self@.phase is Titling,
        ensures
            next@ == self@.deliver(Reply::Content(fetched_view(fetched))),
    {
        let ghost before = self@;
        let mut parts = self;
        let phase = parts.phase;
        parts.phase = Phase::Finished;
        match phase {
            Phase::Titling(location) => {
                assert(before.entries[parts.head - 1] == parts.entries[parts.head - 1]@);
                let title = title_for(parts.substrate, &fetched, location.as_str());
                let depth: usize = parts.entries[parts.head - 1].depth + 1;
                let ghost kept = parts@.entries;
                parts.entries.push(Document { location, title, depth, parent: parts.head - 1 });
                assert(before.cursor == parts.cursor && before.candidates.len()
                    == parts.candidates.len());
                parts.cursor = parts.cursor + 1;
                proof {
                    assert(parts@.entries =~= kept.push(parts.entries[parts.entries.len() - 1]@));
                    lemma_seek_ignores_phase(parts@, before.accepted(location@, title@));
                }
                parts.seek()
            },
            _ => parts,
        }
    }
}

/// The links that the content of a document leads to.
fn links_of(substrate: Substrate, content: &str, location: &str) -> (links: Vec<String>)
    ensures
        texts_view(links@) == links_in(substrate, content@, location@),
{
    match substrate {
        Substrate::Local => extract_links(content, location),
        Substrate::Remote => extract_remote_links(content, location),
    }
}

/// The title a document gets from what fetching it gave.
fn title_for(substrate: Substrate, fetched: &Fetched, location: &str) -> (title: String)
    ensures
        title@ == title_in(substrate, fetched_view(*fetched), location@),
{
    let found = match fetched {
        Ok(content) => match substrate {
            Substrate::Local => extract_title(content.as_str()),
            Substrate::Remote => extract_title_from_content(content.as_str()),
        },
        Err(_) => None,
    };
    match found {
        Some(title) => title,
        None => match substrate {
            Substrate::Local => fallback_title(location),
            Substrate::Remote => fallback_title_from_url(location),
        },
    }
}

/// A traversal in progress.
pub struct Walk {
    parts: Parts,
}

impl View for Walk {
    type V = WalkState;

    closed spec fn view(&self) -> WalkState {
        self.parts@
    }
}

impl Walk {
    #[verifier::type_invariant]
    spec fn well_formed(self) -> bool {
        self.parts@.wf()
    }

    /// Starts a traversal from `root` that follows links up to `max_depth` deep. On
    /// disk the walk asks for the canonical form of the root first, so that the root
    /// is known under the same name as the documents that link back to it.
    pub fn start(substrate: Substrate, root: &str, max_depth: usize) -> (walk: Walk)
        ensures
            walk@ == WalkState::start(substrate, root@, max_depth as nat),
            walk@.wf(),
    {
        let opening = match substrate {
            Substrate::Local => None,
            Substrate::Remote => {
                let opening = open_remote_file(root);
                if opening.readme {
                    Some(opening)
                } else {
                    None
                }
            },
        };
        let (location, phase) = match opening {
            Some(opening) => (opening.url.clone(), Phase::Opening(opening)),
            None => match substrate {
                Substrate::Local => (root.to_owned(), Phase::Rooting),
                Substrate::Remote => (root.to_owned(), Phase::Finished),
            },
        };
        let mut entries: Vec<Document> = Vec::new();
        entries.push(Document { location, title: String::new(), depth: 0, parent: 0 });
        let seeded = Parts {
            substrate,
            origin: root.to_owned(),
            max_depth,
            entries,
            head: 0,
            level_end: 1,
            candidates: Vec::new(),
            cursor: 0,
            phase,
        };
        proof {
            assert(seeded@.entries =~= seq![root_entry(location@)]);
            assert(seeded@.candidates =~= Seq::<Seq<char>>::empty());
            assert(seeded@ == WalkState::seeded(
                substrate,
                root@,
                location@,
                max_depth as nat,
                phase@,
            ));
            lemma_start_wf(substrate, root@, max_depth as nat);
        }
        let parts = match &seeded.phase {
            Phase::Finished => seeded.next_document(),
            _ => seeded,
        };
        Walk { parts }
    }

    /// What the walk needs next.
    pub fn request(&self) -> (request: Request<String>)
        ensures
            request@ == self@.request(),
            self@.wf(),
    {
        proof {
            use_type_invariant(self);
        }
        let parts = &self.parts;
        match &parts.phase {
            Phase::Opening(opening) => Request::Read(opening.url.clone()),
            Phase::Reading => {
                assert(parts@.entries[parts.head - 1] == parts.entries[parts.head - 1]@);
                Request::Read(parts.entries[parts.head - 1].location.clone())
            },
            Phase::Rooting => Request::Resolve(parts.origin.clone()),
            Phase::Resolving => {
                assert(parts@.candidates[parts.cursor as int] == parts.candidates[parts.cursor as int]@);
                Request::Resolve(parts.candidates[parts.cursor].clone())
            },
            Phase::Titling(location) => Request::Title(location.clone()),
            Phase::Finished => Request::Done,
            Phase::Failed(_) => Request::Done,
        }
    }

    /// Takes the outcome of the request and moves on. A reply of a kind that the walk
    /// does not await leaves it as it is.
    pub fn deliver(self, reply: Reply<String>) -> (next: Walk)
        ensures
            next@ == self@.deliver(reply@),
            next@.wf(),
    {
        proof {
            use_type_invariant(&self);
            lemma_deliver_wf(self@, reply@);
        }
        let next = match reply {
            Reply::Content(fetched) => self.parts.content(fetched),
            Reply::Resolved(resolved) => self.parts.resolution(resolved),
        };
        Walk { parts: next }
    }

    /// Whether the walk is over.
    pub fn is_done(&self) -> (done: bool)
        ensures
            done == (self@.request() is Done),
    {
        match &self.parts.phase {
            Phase::Finished => true,
            Phase::Failed(_) => true,
            _ => false,
        }
    }

    /// Why the walk failed, if it did.
    pub fn failure(&self) -> (error: Option<FetchError<String>>)
        ensures
            match error {
                Some(error) => self@.phase == Phase::Failed(error@),
                None => !(self@.phase is Failed),
            },
    {
        match &self.parts.phase {
            Phase::Failed(error) => Some(error.duplicate()),
            _ => None,
        }
    }

    /// The documents discovered so far, in the order of their discovery, each with its
    /// depth and the index of the entry that linked to it. The root has index 0, the
    /// first discovered document index 1.
    pub fn found(&self) -> (found: Vec<Document>)
        ensures
            documents_view(found@) == self@.found(),
            self@.wf(),
    {
        proof {
            use_type_invariant(self);
        }
        let entries = &self.parts.entries;
        let mut found: Vec<Document> = Vec::new();
        let mut i: usize = 1;
        while i < entries.len()
            invariant
                1 <= i <= entries.len(),
                documents_view(found@) == documents_view(entries@).subrange(1, i as int),
            decreases entries.len() - i,
        {
            let ghost before = documents_view(found@);
            found.push(
                Document {
                    location: entries[i].location.clone(),
                    title: entries[i].title.clone(),
                    depth: entries[i].depth,
                    parent: entries[i].parent,
                },
            );
            assert(documents_view(found@) =~= before.push(entries[i as int]@));
            assert(documents_view(entries@).subrange(1, i + 1) =~= documents_view(
                entries@,
            ).subrange(1, i as int).push(entries[i as int]@));
            i += 1;
        }
        assert(documents_view(entries@).subrange(1, entries.len() as int) =~= self@.found());
        found
    }

    /// The documents discovered so far, in the order of their discovery, as
    /// documents on disk.
    pub fn linked_documents(&self) -> (found: Vec<LinkedDocument>)
        ensures
            found.len() == self@.found().len(),
            forall|i: int|
                0 <= i < found.len() ==> found[i].path@ == (#[trigger] self@.found()[i]).location
                    && found[i].title@ == self@.found()[i].title,
            self@.wf(),
    {
        proof {
            use_type_invariant(self);
        }
        let entries = &self.parts.entries;
        let mut found: Vec<LinkedDocument> = Vec::new();
        let mut i: usize = 1;
        while i < entries.len()
            invariant
                1 <= i <= entries.len(),
                found.len() == i - 1,
                forall|j: int|
                    0 <= j < found.len() ==> found[j].path@ == (#[trigger] entries[j + 1]).location@
                        && found[j].title@ == entries[j + 1].title@,
            decreases entries.len() - i,
        {
            found.push(
                LinkedDocument {
                    path: entries[i].location.clone(),
                    title: entries[i].title.clone(),
                },
            );
            i += 1;
        }
        assert forall|i: int| 0 <= i < found.len() implies found[i].path@ == (
        #[trigger] self@.found()[i]).location && found[i].title@ == self@.found()[i].title by {
            assert(self@.found()[i] == entries[i + 1]@);
        }
        found
    }

    /// The documents discovered so far, in the order of their discovery, as
    /// documents at URLs.
    pub fn remote_documents(&self) -> (found: Vec<RemoteLinkedDocument>)
        ensures
            found.len() == self@.found().len(),
            forall|i: int|
                0 <= i < found.len() ==> found[i].url@ == (#[trigger] self@.found()[i]).location
                    && found[i].title@ == self@.found()[i].title,
            self@.wf(),
    {
        proof {
            use_type_invariant(self);
        }
        let entries = &self.parts.entries;
        let mut found: Vec<RemoteLinkedDocument> = Vec::new();
        let mut i: usize = 1;
        while i < entries.len()
            invariant
                1 <= i <= entries.len(),
                found.len() == i - 1,
                forall|j: int|
                    0 <= j < found.len() ==> found[j].url@ == (#[trigger] entries[j + 1]).location@
                        && found[j].title@ == entries[j + 1].title@,
            decreases entries.len() - i,
        {
            found.push(
                RemoteLinkedDocument {
                    url: entries[i].location.clone(),
                    title: entries[i].title.clone(),
                },
            );
            i += 1;
        }
        assert forall|i: int| 0 <= i < found.len() implies found[i].url@ == (
        #[trigger] self@.found()[i]).location && found[i].title@ == self@.found()[i].title by {
            assert(self@.found()[i] == entries[i + 1]@);
        }
        found
    }
}

/// Where a walk gets its documents from: a disk, a network, or a stand-in for
/// either. Nothing is asked of what a source gives: a walk comes to its end and
/// keeps its invariant whatever comes back.
pub trait Source {
    /// Whether anything exists at `path`.
    fn is_there(&mut self, path: &str) -> bool;

    /// The content of the document at `location`, wanted for its links.
    fn read(&mut self, location: &str) -> Fetched;

    /// The content of the document at `location`, wanted for its title.
    fn title(&mut self, location: &str) -> Fetched;

    /// The canonical form of `path`, or nothing where no such path exists.
    fn resolve(&mut self, path: &str) -> Option<String>;
}

/// Drives `start` to its end, taking from `source` what the walk asks for. The walk
/// that comes back asks for nothing more, and is what a sequence of replies led to,
/// each of the kind that was awaited when it came. Of what the replies hold nothing
/// is said: that is for the source to decide.
pub fn run<S: Source>(start: Walk, source: &mut S) -> (done: Walk)
    ensures
        done@.request() is Done,
        done@.wf(),
        exists|replies: Seq<Reply<Seq<char>>>|
            #[trigger] completes(start@, replies) && done@ == after(start@, replies),
{
    let ghost replies: Seq<Reply<Seq<char>>> = Seq::empty();
    let mut walk = start;
    loop
        invariant_except_break
            walk@ == after(start@, replies),
            answers(start@, replies),
        ensures
            walk@ == after(start@, replies),
            answers(start@, replies),
            walk@.request() is Done,
            walk@.wf(),
        decreases
            walk@.measure().0,
            walk@.measure().1,
            walk@.measure().2,
            walk@.measure().3,
            walk@.measure().4,
    {
        let reply = match walk.request() {
            Request::Done => {
                break ;
            },
            Request::Read(location) => Reply::Content(source.read(location.as_str())),
            Request::Title(location) => Reply::Content(source.title(location.as_str())),
            Request::Resolve(path) => Reply::Resolved(source.resolve(path.as_str())),
        };
        proof {
            lemma_deliver_decreases(walk@, reply@);
            let longer = replies.push(reply@);
            assert(longer.drop_last() =~= replies);
            assert forall|i: int| 0 <= i < longer.len() implies after(
                start@,
                longer.take(i),
            ).awaits(#[trigger] longer[i]) by {
                if i < replies.len() {
                    assert(longer.take(i) =~= replies.take(i));
                    assert(longer[i] == replies[i]);
                } else {
                    assert(longer.take(i) =~= replies);
                }
            }
            replies = longer;
        }
        walk = walk.deliver(reply);
    }
    assert(completes(start@, replies));
    walk
}

/// Moving on from the cursor does not depend on what the state was waiting for.
proof fn lemma_seek_ignores_phase(a: WalkState, b: WalkState)
    requires
        a == (WalkState { phase: a.phase, ..b }),
    ensures
        a.seek() == b.seek(),
    decreases a.candidates.len() - a.cursor,
{
    if a.cursor < a.candidates.len() {
        let candidate = a.candidates[a.cursor as int];
        assert(a.visited(candidate) == b.visited(candidate));
        if a.substrate == Substrate::Remote && a.visited(candidate) {
            lemma_seek_ignores_phase(
                WalkState { cursor: a.cursor + 1, ..a },
                WalkState { cursor: b.cursor + 1, ..b },
            );
        }
    } else {
        lemma_next_document_ignores_phase(a, b);
    }
}

/// Taking the next document does not depend on what the state was waiting for.
proof fn lemma_next_document_ignores_phase(a: WalkState, b: WalkState)
    requires
        a == (WalkState { phase: a.phase, ..b }),
    ensures
        a.next_document() == b.next_document(),
    decreases a.entries.len() - a.head,
{
    if a.head < a.entries.len() {
        let level_end = if a.head == a.level_end {
            a.entries.len()
        } else {
            a.level_end
        };
        if !(a.entries[a.head as int].depth < a.max_depth) {
            lemma_next_document_ignores_phase(
                WalkState { head: a.head + 1, level_end, ..a },
                WalkState { head: b.head + 1, level_end, ..b },
            );
        }
    }
}

} // verus!
