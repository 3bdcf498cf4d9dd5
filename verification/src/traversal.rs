//! The breadth-first traversal as a state machine over plain values.
//!
//! The traversal itself never reads a file or sends a request. It says what it needs
//! next (`Request`), is told what came of it (`Reply`), and moves on. This module
//! holds the mathematical machine: its states, its transition function and the
//! invariant that every reachable state satisfies. The executable machine, which is
//! proved to follow it step by step, is in `walk`.

use crate::fetch::FetchError;
use crate::github::{opening_of, settled, Opened, Opening};
use crate::local::{local_fallback, local_links, local_title};
use crate::paths::is_markdown;
use crate::remote::{remote_fallback, remote_links, remote_title};
use vstd::prelude::*;

verus! {

/// Where the documents of a traversal live.
#[derive(Clone, Copy, Debug, PartialEq, Eq, Structural)]
pub enum Substrate {
    /// Files on disk, named by canonical absolute paths.
    Local,
    /// Documents served over HTTP, named by absolute URLs.
    Remote,
}

/// A location that the traversal has accepted: the root, or a discovered document.
pub struct Entry {
    /// Where the document is.
    pub location: Seq<char>,
    /// Its title; empty for the root, whose title is never computed.
    pub title: Seq<char>,
    /// The number of links followed from the root to reach it.
    pub depth: nat,
    /// The index of the entry in whose content the link to it was found.
    pub parent: nat,
}

/// What the traversal needs next from its caller.
pub enum Request<T = String> {
    /// The content of this document, to follow its links.
    Read(T),
    /// The canonical form of this path, if it exists on disk.
    Resolve(T),
    /// The content of this document, to learn its title.
    Title(T),
    /// Nothing: the traversal is over.
    Done,
}

/// What came of a request.
pub enum Reply<T = String> {
    /// The answer to `Read` and `Title`: the content, or why it could not be had.
    Content(Result<T, FetchError<T>>),
    /// The answer to `Resolve`: the canonical path, or nothing where it does not exist.
    Resolved(Option<T>),
}

/// What the traversal is waiting for.
pub enum Phase<T = String> {
    /// The README that stands for the root, under the URL that the opening holds.
    Opening(Opening<T>),
    /// The content of the entry taken from the queue last.
    Reading,
    /// The canonical form of the root of a traversal on disk.
    Rooting,
    /// The canonical form of the candidate under the cursor.
    Resolving,
    /// The content of this location, which the candidate under the cursor led to and
    /// which no entry holds yet.
    Titling(T),
    /// Nothing: the queue is empty.
    Finished,
    /// Nothing: the root could not be had.
    Failed(FetchError<T>),
}

/// The links that the content of a document leads to, as candidates for new
/// entries: paths still to be made canonical on the local substrate, URLs on the
/// remote one.
pub open spec fn links_in(substrate: Substrate, content: Seq<char>, location: Seq<char>) -> Seq<
    Seq<char>,
> {
    match substrate {
        Substrate::Local => local_links(content, location),
        Substrate::Remote => remote_links(content, location),
    }
}

/// The title a document gets from what fetching it gave: the title in its content,
/// else the fallback that its location gives. A failed fetch gives the fallback too.
pub open spec fn title_in(
    substrate: Substrate,
    fetched: Result<Seq<char>, FetchError<Seq<char>>>,
    location: Seq<char>,
) -> Seq<char> {
    let found = match (fetched, substrate) {
        (Ok(content), Substrate::Local) => local_title(content),
        (Ok(content), Substrate::Remote) => remote_title(content),
        (Err(_), _) => None,
    };
    match (found, substrate) {
        (Some(title), _) => title,
        (None, Substrate::Local) => local_fallback(location),
        (None, Substrate::Remote) => remote_fallback(location),
    }
}

/// A state of the traversal.
///
/// `entries` holds the root followed by the discovered documents in the order of
/// their discovery. It is the visited set and the queue at once: the entries from
/// `head` on are those still queued. The entries up to `level_end` are those of the
/// level being worked on and of the levels before it; the ones behind are one level
/// deeper. `candidates` are the links of the entry taken last, of which those from
/// `cursor` on are still to be looked at. `origin` is the root as the caller named
/// it, which may differ from the location of the root entry: that is the canonical
/// path on disk, and the README's URL where the caller named a repository.
pub struct WalkState {
    pub substrate: Substrate,
    pub origin: Seq<char>,
    pub max_depth: nat,
    pub entries: Seq<Entry>,
    pub head: nat,
    pub level_end: nat,
    pub candidates: Seq<Seq<char>>,
    pub cursor: nat,
    pub phase: Phase<Seq<char>>,
}

/// The entry that stands for the root at `location`.
pub open spec fn root_entry(location: Seq<char>) -> Entry {
    Entry { location, title: Seq::empty(), depth: 0, parent: 0 }
}

impl WalkState {
    /// Whether `location` has been accepted already: it is the root as the caller
    /// named it, or that of an entry.
    pub open spec fn visited(self, location: Seq<char>) -> bool {
        location == self.origin || exists|i: int|
            0 <= i < self.entries.len() && (#[trigger] self.entries[i]).location == location
    }

    /// The location of the root.
    pub open spec fn root(self) -> Seq<char> {
        self.entries[0].location
    }

    /// The discovered documents, in the order of their discovery.
    pub open spec fn found(self) -> Seq<Entry> {
        self.entries.skip(1)
    }

    /// The entry whose links are being followed.
    pub open spec fn current(self) -> Entry {
        self.entries[self.head - 1]
    }

    /// The depth of the level being worked on.
    pub open spec fn level(self) -> nat {
        self.entries[self.level_end - 1].depth
    }

    /// What the state asks of the caller.
    pub open spec fn request(self) -> Request<Seq<char>> {
        match self.phase {
            Phase::Opening(opening) => Request::Read(opening.url),
            Phase::Reading => Request::Read(self.current().location),
            Phase::Rooting => Request::Resolve(self.origin),
            Phase::Resolving => Request::Resolve(self.candidates[self.cursor as int]),
            Phase::Titling(location) => Request::Title(location),
            Phase::Finished => Request::Done,
            Phase::Failed(_) => Request::Done,
        }
    }

    /// Whether `reply` is of the kind that the state's request calls for.
    pub open spec fn awaits(self, reply: Reply<Seq<char>>) -> bool {
        match (self.phase, reply) {
            (Phase::Opening(_), Reply::Content(_)) => true,
            (Phase::Reading, Reply::Content(_)) => true,
            (Phase::Rooting, Reply::Resolved(_)) => true,
            (Phase::Resolving, Reply::Resolved(_)) => true,
            (Phase::Titling(_), Reply::Content(_)) => true,
            _ => false,
        }
    }

    /// Takes entries from the queue until one is shallow enough to be expanded, and
    /// asks for its content; finishes when the queue runs empty first. An entry at
    /// the depth bound is taken and not expanded.
    pub open spec fn next_document(self) -> WalkState
        decreases self.entries.len() - self.head,
    {
        if self.head < self.entries.len() {
            let taken = WalkState {
                head: self.head + 1,
                level_end: if self.head == self.level_end {
                    self.entries.len()
                } else {
                    self.level_end
                },
                ..self
            };
            if self.entries[self.head as int].depth < self.max_depth {
                WalkState { candidates: Seq::empty(), cursor: 0, phase: Phase::Reading, ..taken }
            } else {
                taken.next_document()
            }
        } else {
            WalkState { phase: Phase::Finished, ..self }
        }
    }

    /// Moves on from the cursor to the next candidate that calls for a request. On
    /// the local substrate that is the next candidate, whose canonical form is asked
    /// for. On the remote substrate it is the next candidate that is not visited,
    /// whose content is asked for. When the candidates run out, the next document
    /// is taken.
    pub open spec fn seek(self) -> WalkState
        decreases self.candidates.len() - self.cursor,
    {
        if self.cursor < self.candidates.len() {
            let candidate = self.candidates[self.cursor as int];
            match self.substrate {
                Substrate::Local => WalkState { phase: Phase::Resolving, ..self },
                Substrate::Remote => if self.visited(candidate) {
                    WalkState { cursor: self.cursor + 1, ..self }.seek()
                } else {
                    WalkState { phase: Phase::Titling(candidate), ..self }
                },
            }
        } else {
            self.next_document()
        }
    }

    /// The state with `links` as the candidates of the current entry.
    pub open spec fn with_candidates(self, links: Seq<Seq<char>>) -> WalkState {
        WalkState { candidates: links, cursor: 0, ..self }
    }

    /// The state with the candidate under the cursor behind it.
    pub open spec fn passed(self) -> WalkState {
        WalkState { cursor: self.cursor + 1, ..self }
    }

    /// The state with `location` accepted as a new entry, one level below the
    /// current entry, and the candidate under the cursor behind it.
    pub open spec fn accepted(self, location: Seq<char>, title: Seq<char>) -> WalkState {
        WalkState {
            entries: self.entries.push(
                Entry {
                    location,
                    title,
                    depth: self.current().depth + 1,
                    parent: (self.head - 1) as nat,
                },
            ),
            cursor: self.cursor + 1,
            ..self
        }
    }

    /// The state in which the root, whose content is at hand, is expanded, if the
    /// depth bound lets it be.
    pub open spec fn root_loaded(self, content: Seq<char>) -> WalkState {
        if 0 < self.max_depth {
            WalkState { head: 1, ..self }.with_candidates(
                links_in(self.substrate, content, self.root()),
            ).seek()
        } else {
            self.next_document()
        }
    }

    /// The state in which `root` alone is accepted, for a traversal whose caller
    /// named its root `origin`.
    pub open spec fn seeded(
        substrate: Substrate,
        origin: Seq<char>,
        root: Seq<char>,
        max_depth: nat,
        phase: Phase<Seq<char>>,
    ) -> WalkState {
        WalkState {
            substrate,
            origin,
            max_depth,
            entries: seq![root_entry(root)],
            head: 0,
            level_end: 1,
            candidates: Seq::empty(),
            cursor: 0,
            phase,
        }
    }

    /// The state in which a traversal starts. On disk the canonical form of the
    /// root is asked for first. A remote root that names a repository is replaced by
    /// the repository's README, which is looked for first. Any other remote root is
    /// queued as it is.
    pub open spec fn start(substrate: Substrate, root: Seq<char>, max_depth: nat) -> WalkState {
        let opening = opening_of(root);
        match substrate {
            Substrate::Local => Self::seeded(substrate, root, root, max_depth, Phase::Rooting),
            Substrate::Remote => if opening.readme {
                Self::seeded(substrate, root, opening.url, max_depth, Phase::Opening(opening))
            } else {
                Self::seeded(substrate, root, root, max_depth, Phase::Finished).next_document()
            },
        }
    }

    /// The state in which the root on disk is known by its canonical form, or by the
    /// name that the caller gave it where it has none, and is queued.
    pub open spec fn rooted(self, resolved: Option<Seq<char>>) -> WalkState {
        WalkState {
            entries: seq![
                root_entry(
                    match resolved {
                        Some(canonical) => canonical,
                        None => self.origin,
                    },
                ),
            ],
            phase: Phase::Finished,
            ..self
        }.next_document()
    }

    /// The state that follows when `reply` is delivered. A reply of a kind that the
    /// state does not await leaves it as it is.
    pub open spec fn deliver(self, reply: Reply<Seq<char>>) -> WalkState {
        match (self.phase, reply) {
            (Phase::Opening(opening), Reply::Content(fetched)) => match settled(opening, fetched) {
                Opened::Loaded { content, url } => self.root_loaded(content),
                Opened::Retry(next) => WalkState {
                    entries: seq![root_entry(next.url)],
                    phase: Phase::Opening(next),
                    ..self
                },
                Opened::Failed(error) => WalkState { phase: Phase::Failed(error), ..self },
            },
            (Phase::Reading, Reply::Content(fetched)) => match fetched {
                Ok(content) => self.with_candidates(
                    links_in(self.substrate, content, self.current().location),
                ).seek(),
                Err(_) => self.with_candidates(Seq::empty()).seek(),
            },
            (Phase::Rooting, Reply::Resolved(resolved)) => self.rooted(resolved),
            (Phase::Resolving, Reply::Resolved(resolved)) => match resolved {
                Some(path) => if is_markdown(path) && !self.visited(path) {
                    WalkState { phase: Phase::Titling(path), ..self }
                } else {
                    self.passed().seek()
                },
                None => self.passed().seek(),
            },
            (Phase::Titling(location), Reply::Content(fetched)) => self.accepted(
                location,
                title_in(self.substrate, fetched, location),
            ).seek(),
            _ => self,
        }
    }

    /// What holds of the entries and the positions in every state.
    pub open spec fn structured(self) -> bool {
        &&& 1 <= self.level_end <= self.entries.len()
        &&& self.head <= self.level_end
        &&& self.cursor <= self.candidates.len()
        &&& self.entries[0].depth == 0
        &&& self.level() <= self.max_depth
        &&& forall|i: int|
            1 <= i < self.entries.len() ==> {
                let entry = #[trigger] self.entries[i];
                &&& entry.parent < i
                &&& entry.parent < self.head
                &&& entry.depth == self.entries[entry.parent as int].depth + 1
                &&& entry.depth <= self.max_depth
            }
        &&& forall|i: int, j: int|
            0 <= i < j < self.entries.len() ==> (#[trigger] self.entries[i]).location != (
            #[trigger] self.entries[j]).location
        &&& forall|i: int|
            1 <= i < self.entries.len() ==> (#[trigger] self.entries[i]).location != self.origin
        &&& forall|i: int|
            0 <= i < self.entries.len() ==> {
                let depth = (#[trigger] self.entries[i]).depth;
                &&& i < self.level_end ==> depth <= self.level()
                &&& self.head <= i < self.level_end ==> depth == self.level()
                &&& self.level_end <= i ==> depth == self.level() + 1
            }
    }

    /// What holds while the links of an entry are being followed: the entry is on
    /// the level being worked on, above the depth bound.
    pub open spec fn expanding(self) -> bool {
        &&& 1 <= self.head
        &&& self.current().depth == self.level()
        &&& self.level() < self.max_depth
    }

    /// The invariant of the traversal.
    pub open spec fn wf(self) -> bool {
        &&& self.structured()
        &&& match self.phase {
            Phase::Opening(opening) => {
                &&& self.substrate == Substrate::Remote
                &&& self.head == 0
                &&& self.entries.len() == 1
                &&& self.root() == opening.url
            },
            Phase::Reading => self.expanding(),
            Phase::Rooting => {
                &&& self.substrate == Substrate::Local
                &&& self.head == 0
                &&& self.entries.len() == 1
            },
            Phase::Resolving => {
                &&& self.substrate == Substrate::Local
                &&& self.expanding()
                &&& self.cursor < self.candidates.len()
            },
            Phase::Titling(location) => {
                &&& self.expanding()
                &&& self.cursor < self.candidates.len()
                &&& !self.visited(location)
            },
            Phase::Finished => true,
            Phase::Failed(_) => self.substrate == Substrate::Remote,
        }
    }

    /// Whether the root entry is settled: it is not while the canonical form of a
    /// root on disk, or the README of a repository, is still awaited.
    pub open spec fn root_is_settled(self) -> bool {
        !(self.phase is Opening) && !(self.phase is Rooting)
    }

    /// How much work a state has before it, as five numbers that are compared from
    /// the left: the levels still to be worked on, the entries of the current level
    /// still queued, whether the content of the current entry is still awaited, the
    /// candidates still to be looked at, and whether the candidate under the cursor
    /// is still to be resolved.
    pub open spec fn measure(self) -> (nat, nat, nat, nat, nat) {
        let levels = (self.max_depth - self.level()) as nat;
        let queued = (self.level_end - self.head) as nat;
        let left = (self.candidates.len() - self.cursor) as nat;
        match self.phase {
            Phase::Opening(opening) => (
                self.max_depth + if opening.fallback is Some {
                    2nat
                } else {
                    1nat
                },
                0,
                0,
                0,
                0,
            ),
            Phase::Reading => (levels, queued, 1, 0, 0),
            Phase::Rooting => (self.max_depth + 1, 0, 0, 0, 0),
            Phase::Resolving => (levels, queued, 0, left, 1),
            Phase::Titling(_) => (levels, queued, 0, left, 0),
            Phase::Finished => (0, 0, 0, 0, 0),
            Phase::Failed(_) => (0, 0, 0, 0, 0),
        }
    }
}

/// The order in which measures are compared: from the left, the first difference
/// decides.
pub open spec fn lex_less(a: (nat, nat, nat, nat, nat), b: (nat, nat, nat, nat, nat)) -> bool {
    ||| a.0 < b.0
    ||| a.0 == b.0 && a.1 < b.1
    ||| a.0 == b.0 && a.1 == b.1 && a.2 < b.2
    ||| a.0 == b.0 && a.1 == b.1 && a.2 == b.2 && a.3 < b.3
    ||| a.0 == b.0 && a.1 == b.1 && a.2 == b.2 && a.3 == b.3 && a.4 < b.4
}

/// `lex_less`, or equal.
pub open spec fn lex_at_most(a: (nat, nat, nat, nat, nat), b: (nat, nat, nat, nat, nat)) -> bool {
    a == b || lex_less(a, b)
}

/// The state that a sequence of replies, delivered in order, leads to from `state`.
pub open spec fn after(state: WalkState, replies: Seq<Reply<Seq<char>>>) -> WalkState
    decreases replies.len(),
{
    if replies.len() == 0 {
        state
    } else {
        after(state, replies.drop_last()).deliver(replies.last())
    }
}

/// Each of `replies` is of the kind that the state it is delivered to awaits.
pub open spec fn answers(state: WalkState, replies: Seq<Reply<Seq<char>>>) -> bool {
    forall|i: int|
        0 <= i < replies.len() ==> after(state, replies.take(i)).awaits(#[trigger] replies[i])
}

/// `replies` take a traversal from `start` to its end: each is of the kind that was
/// awaited when it came, and the state that they lead to asks for nothing more.
pub open spec fn completes(start: WalkState, replies: Seq<Reply<Seq<char>>>) -> bool {
    &&& answers(start, replies)
    &&& after(start, replies).wf()
    &&& after(start, replies).request() is Done
}

/// How many of `replies` gave, or failed to give, the content of a document whose
/// links were asked for.
pub open spec fn reads(start: WalkState, replies: Seq<Reply<Seq<char>>>) -> nat
    decreases replies.len(),
{
    if replies.len() == 0 {
        0
    } else {
        let before = after(start, replies.drop_last());
        reads(start, replies.drop_last()) + if before.phase is Reading && before.awaits(
            replies.last(),
        ) {
            1nat
        } else {
            0nat
        }
    }
}

/// How many of `replies` gave, or failed to give, the content of a document whose
/// title was asked for.
pub open spec fn titles(start: WalkState, replies: Seq<Reply<Seq<char>>>) -> nat
    decreases replies.len(),
{
    if replies.len() == 0 {
        0
    } else {
        let before = after(start, replies.drop_last());
        titles(start, replies.drop_last()) + if before.phase is Titling && before.awaits(
            replies.last(),
        ) {
            1nat
        } else {
            0nat
        }
    }
}

} // verus!
