//! Documents held in memory: a source for walks that touches neither disk nor
//! network.

use crate::fetch::{fetched_view, FetchError, Fetched};
use crate::laws::lemma_deliver_decreases;
use crate::text::optional_view;
use crate::traversal::{Reply, Request, Substrate, WalkState};
use crate::walk::{Source, Walk};
use vstd::prelude::*;
use vstd::string::*;

verus! {

/// A document held in memory.
pub struct Held {
    /// Where the document is taken to be.
    pub location: String,
    /// Its content.
    pub content: String,
}

/// Documents held in memory, each under its location. Where two are held under one
/// location, the first counts.
pub struct Snapshot {
    pub documents: Vec<Held>,
}

/// The index of the first of `documents` at or after `from` that is held under
/// `location`; `documents.len()` when there is none.
pub open spec fn held_at(documents: Seq<Held>, location: Seq<char>, from: int) -> int
    decreases documents.len() - from,
{
    if from < 0 || from >= documents.len() {
        documents.len() as int
    } else if documents[from].location@ == location {
        from
    } else {
        held_at(documents, location, from + 1)
    }
}

impl Snapshot {
    /// Whether a document is held under `location`.
    pub open spec fn holds(self, location: Seq<char>) -> bool {
        held_at(self.documents@, location, 0) < self.documents.len()
    }

    /// What fetching `location` gives: the content held under it, or that nothing
    /// is there.
    pub open spec fn fetched(self, location: Seq<char>) -> Result<Seq<char>, FetchError<Seq<char>>> {
        if self.holds(location) {
            Ok(self.documents@[held_at(self.documents@, location, 0)].content@)
        } else {
            Err(FetchError::NotFound(location))
        }
    }

    /// The canonical form of `path`: the path itself where a document is held under
    /// it, nothing otherwise.
    pub open spec fn resolved(self, path: Seq<char>) -> Option<Seq<char>> {
        if self.holds(path) {
            Some(path)
        } else {
            None
        }
    }

    /// What the snapshot replies to a request.
    pub open spec fn reply(self, request: Request<Seq<char>>) -> Reply<Seq<char>> {
        match request {
            Request::Read(location) => Reply::Content(self.fetched(location)),
            Request::Title(location) => Reply::Content(self.fetched(location)),
            Request::Resolve(path) => Reply::Resolved(self.resolved(path)),
            Request::Done => Reply::Resolved(None),
        }
    }

    /// The state in which a traversal over the snapshot ends when it goes on from
    /// `state`: the state itself where it asks for nothing, else the end of the
    /// traversal from the state that the snapshot's reply leads to.
    pub open spec fn end_of(self, state: WalkState) -> WalkState
        decreases
            state.measure().0,
            state.measure().1,
            state.measure().2,
            state.measure().3,
            state.measure().4,
        when state.wf()
        via Self::end_of_is_reached
    {
        if state.request() is Done {
            state
        } else {
            self.end_of(state.deliver(self.reply(state.request())))
        }
    }

    #[via_fn]
    proof fn end_of_is_reached(self, state: WalkState) {
        if !(state.request() is Done) {
            lemma_deliver_decreases(state, self.reply(state.request()));
        }
    }

    /// A snapshot that holds nothing.
    pub fn new() -> (snapshot: Snapshot)
        ensures
            snapshot.documents@.len() == 0,
    {
        Snapshot { documents: Vec::new() }
    }

    /// Adds a document with `content` under `location`, behind those held already.
    pub fn hold(&mut self, location: &str, content: &str)
        ensures
            final(self).documents@.len() == old(self).documents@.len() + 1,
            final(self).documents@.drop_last() == old(self).documents@,
            final(self).documents@.last().location@ == location@,
            final(self).documents@.last().content@ == content@,
    {
        let ghost before = self.documents@;
        self.documents.push(Held { location: location.to_owned(), content: content.to_owned() });
        assert(self.documents@.drop_last() =~= before);
    }

    /// The index of the first document held under `location`, if any.
    fn find(&self, location: &str) -> (at: usize)
        ensures
            at == held_at(self.documents@, location@, 0),
            at <= self.documents.len(),
    {
        let wanted = location.to_owned();
        let mut i: usize = 0;
        while i < self.documents.len() && self.documents[i].location != wanted
            invariant
                i <= self.documents.len(),
                wanted@ == location@,
                held_at(self.documents@, location@, 0) == held_at(
                    self.documents@,
                    location@,
                    i as int,
                ),
            decreases self.documents.len() - i,
        {
            i += 1;
        }
        i
    }

    /// Fetches the document held under `location`.
    pub fn fetch(&self, location: &str) -> (fetched: Fetched)
        ensures
            fetched_view(fetched) == self.fetched(location@),
    {
        let at = self.find(location);
        if at < self.documents.len() {
            Ok(self.documents[at].content.clone())
        } else {
            Err(FetchError::NotFound(location.to_owned()))
        }
    }

    /// The canonical form of `path`: the path itself where a document is held under
    /// it, nothing otherwise.
    pub fn canonical(&self, path: &str) -> (resolved: Option<String>)
        ensures
            optional_view(resolved) == self.resolved(path@),
    {
        let at = self.find(path);
        if at < self.documents.len() {
            Some(path.to_owned())
        } else {
            None
        }
    }
}

impl Snapshot {
    /// Runs a traversal over the snapshot from `root` to its end.
    pub fn walk(&self, substrate: Substrate, root: &str, max_depth: usize) -> (done: Walk)
        ensures
            done@ == self.end_of(WalkState::start(substrate, root@, max_depth as nat)),
            done@.request() is Done,
            done@.wf(),
    {
        let mut walk = Walk::start(substrate, root, max_depth);
        let ghost start = walk@;
        loop
            invariant_except_break
                walk@.wf(),
                self.end_of(walk@) == self.end_of(start),
            ensures
                walk@.wf(),
                walk@.request() is Done,
                walk@ == self.end_of(start),
            decreases
                walk@.measure().0,
                walk@.measure().1,
                walk@.measure().2,
                walk@.measure().3,
                walk@.measure().4,
        {
            let reply = match walk.request() {
                Request::Done => {
                    break ;
                },
                Request::Read(location) => Reply::Content(self.fetch(location.as_str())),
                Request::Title(location) => Reply::Content(self.fetch(location.as_str())),
                Request::Resolve(path) => Reply::Resolved(self.canonical(path.as_str())),
            };
            proof {
                assert(reply@ == self.reply(walk@.request()));
                lemma_deliver_decreases(walk@, reply@);
            }
            walk = walk.deliver(reply);
        }
        walk
    }
}

impl Source for Snapshot {
    /// Something is at `path` where a document is held under it. The snapshot stays
    /// as it is.
    fn is_there(&mut self, path: &str) -> (there: bool)
        ensures
            there == old(self).holds(path@),
            *final(self) == *old(self),
    {
        self.canonical(path).is_some()
    }

    /// The content held under `location`, or that nothing is there. The snapshot
    /// stays as it is.
    fn read(&mut self, location: &str) -> (fetched: Fetched)
        ensures
            fetched_view(fetched) == old(self).fetched(location@),
            *final(self) == *old(self),
    {
        self.fetch(location)
    }

    /// The content held under `location`, or that nothing is there. The snapshot
    /// stays as it is.
    fn title(&mut self, location: &str) -> (fetched: Fetched)
        ensures
            fetched_view(fetched) == old(self).fetched(location@),
            *final(self) == *old(self),
    {
        self.fetch(location)
    }

    /// The path itself where a document is held under it, nothing otherwise. The
    /// snapshot stays as it is.
    fn resolve(&mut self, path: &str) -> (resolved: Option<String>)
        ensures
            optional_view(resolved) == old(self).resolved(path@),
            *final(self) == *old(self),
    {
        self.canonical(path)
    }
}

} // verus!
