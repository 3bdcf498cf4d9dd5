//! What holds of every traversal, proved of the machine in `traversal`.

use crate::fetch::FetchError;
use crate::github::{opening_of, settled, Opened};
use crate::paths::is_markdown;
use crate::traversal::{
    after, lex_at_most, lex_less, links_in, reads, root_entry, title_in, titles, Entry, Phase,
    Reply, Substrate, WalkState,
};
use vstd::prelude::*;

verus! {

impl WalkState {
    /// The number of links from the root to the entry at `index`, counted along the
    /// entries in whose content each link was found.
    pub open spec fn hops(self, index: int) -> nat
        decreases index,
    {
        if 0 < index < self.entries.len() && self.entries[index].parent < index {
            1 + self.hops(self.entries[index].parent as int)
        } else {
            0
        }
    }

    /// The levels still to be worked on.
    pub open spec fn levels_left(self) -> nat {
        (self.max_depth - self.level()) as nat
    }

    /// The entries of the current level that are still queued.
    pub open spec fn queued(self) -> nat {
        (self.level_end - self.head) as nat
    }

    /// The candidates still to be looked at.
    pub open spec fn candidates_left(self) -> nat {
        (self.candidates.len() - self.cursor) as nat
    }
}

/// Taking the next document keeps the invariant and the entries, and leaves less
/// work than the queue held before.
pub proof fn lemma_next_document(s: WalkState)
    requires
        s.structured(),
    ensures
        s.next_document().wf(),
        s.next_document().entries == s.entries,
        s.next_document().substrate == s.substrate,
        s.next_document().origin == s.origin,
        s.next_document().max_depth == s.max_depth,
        s.next_document().head >= s.head,
        s.next_document().phase is Finished || (s.next_document().phase is Reading
            && s.next_document().head > s.head),
        lex_at_most(s.next_document().measure(), (s.levels_left(), s.queued(), 0, 0, 0)),
    decreases s.entries.len() - s.head,
{
    if s.head < s.entries.len() {
        let taken = WalkState {
            head: s.head + 1,
            level_end: if s.head == s.level_end {
                s.entries.len()
            } else {
                s.level_end
            },
            ..s
        };
        assert(s.entries[s.entries.len() - 1].depth <= s.max_depth);
        assert(s.entries[s.head as int].depth == taken.level());
        assert(taken.structured());
        assert(lex_less((taken.levels_left(), taken.queued(), 1, 0, 0), (s.levels_left(), s.queued(), 0, 0, 0)));
        if s.entries[s.head as int].depth < s.max_depth {
            let reading = WalkState {
                candidates: Seq::empty(),
                cursor: 0,
                phase: Phase::Reading,
                ..taken
            };
            assert(reading.level() == taken.level());
            assert(reading.structured());
            assert(reading.expanding());
        } else {
            lemma_next_document(taken);
        }
    }
}

/// Moving on from the cursor keeps the invariant and the entries, and leaves no more
/// work than the candidates from the cursor on.
pub proof fn lemma_seek(s: WalkState)
    requires
        s.structured(),
        s.expanding(),
    ensures
        s.seek().wf(),
        s.seek().entries == s.entries,
        s.seek().substrate == s.substrate,
        s.seek().origin == s.origin,
        s.seek().max_depth == s.max_depth,
        s.seek().head >= s.head,
        s.seek().root_is_settled(),
        s.seek().phase is Reading ==> s.seek().head > s.head,
        lex_at_most(s.seek().measure(), (s.levels_left(), s.queued(), 0, s.candidates_left(), 1)),
    decreases s.candidates.len() - s.cursor,
{
    if s.cursor < s.candidates.len() {
        let candidate = s.candidates[s.cursor as int];
        match s.substrate {
            Substrate::Local => {
                let next = WalkState { phase: Phase::Resolving, ..s };
                assert(next.level() == s.level());
                assert(next.structured());
            },
            Substrate::Remote => {
                if s.visited(candidate) {
                    let next = WalkState { cursor: s.cursor + 1, ..s };
                    assert(next.level() == s.level());
                    assert(next.structured());
                    lemma_seek(next);
                } else {
                    let next = WalkState { phase: Phase::Titling(candidate), ..s };
                    assert(next.level() == s.level());
                    assert(next.structured());
                    assert(next.visited(candidate) == s.visited(candidate));
                }
            },
        }
    } else {
        lemma_next_document(s);
    }
}

/// Accepting a location that is not visited keeps the structure of a state.
pub proof fn lemma_accepted(s: WalkState, location: Seq<char>, title: Seq<char>)
    requires
        s.structured(),
        s.expanding(),
        s.cursor < s.candidates.len(),
        !s.visited(location),
    ensures
        s.accepted(location, title).structured(),
        s.accepted(location, title).expanding(),
        s.accepted(location, title).levels_left() == s.levels_left(),
        s.accepted(location, title).queued() == s.queued(),
        s.accepted(location, title).candidates_left() + 1 == s.candidates_left(),
{
    let next = s.accepted(location, title);
    let last = s.entries.len() as int;
    assert(next.entries[next.level_end - 1] == s.entries[s.level_end - 1]);
    assert(next.level() == s.level());
    assert forall|i: int| 0 <= i < next.entries.len() implies {
        let depth = (#[trigger] next.entries[i]).depth;
        &&& i < next.level_end ==> depth <= next.level()
        &&& next.head <= i < next.level_end ==> depth == next.level()
        &&& next.level_end <= i ==> depth == next.level() + 1
    } by {
        if i < last {
            assert(next.entries[i] == s.entries[i]);
        }
    }
    assert forall|i: int| 1 <= i < next.entries.len() implies {
        let entry = #[trigger] next.entries[i];
        &&& entry.parent < i
        &&& entry.parent < next.head
        &&& entry.depth == next.entries[entry.parent as int].depth + 1
        &&& entry.depth <= next.max_depth
    } by {
        if i < last {
            assert(next.entries[i] == s.entries[i]);
            assert(next.entries[s.entries[i].parent as int] == s.entries[s.entries[i].parent as int]);
        } else {
            assert(next.entries[s.head - 1] == s.entries[s.head - 1]);
        }
    }
    assert forall|i: int, j: int| 0 <= i < j < next.entries.len() implies (
    #[trigger] next.entries[i]).location != (#[trigger] next.entries[j]).location by {
        assert(next.entries[i] == s.entries[i]);
        if j < last {
            assert(next.entries[j] == s.entries[j]);
        } else {
            assert(s.entries[i].location != location);
        }
    }
    assert forall|i: int| 1 <= i < next.entries.len() implies (#[trigger] next.entries[i]).location
        != next.origin by {
        if i < last {
            assert(next.entries[i] == s.entries[i]);
        }
    }
    assert(next.entries[0] == s.entries[0]);
    assert(next.entries[next.head - 1] == s.entries[s.head - 1]);
}

/// The state in which a traversal starts satisfies the invariant.
pub proof fn lemma_start_wf(substrate: Substrate, root: Seq<char>, max_depth: nat)
    ensures
        WalkState::start(substrate, root, max_depth).wf(),
        WalkState::start(substrate, root, max_depth).origin == root,
        WalkState::start(substrate, root, max_depth).substrate == substrate,
{
    let opening = opening_of(root);
    match substrate {
        Substrate::Local => {
            let seeded = WalkState::seeded(substrate, root, root, max_depth, Phase::Rooting);
            assert(seeded.structured());
        },
        Substrate::Remote => {
            if opening.readme {
                let seeded = WalkState::seeded(
                    substrate,
                    root,
                    opening.url,
                    max_depth,
                    Phase::Opening(opening),
                );
                assert(seeded.structured());
            } else {
                let seeded = WalkState::seeded(substrate, root, root, max_depth, Phase::Finished);
                assert(seeded.structured());
                lemma_next_document(seeded);
            }
        },
    }
}

/// The invariant holds after every reply, of whatever kind.
pub proof fn lemma_deliver_wf(s: WalkState, reply: Reply<Seq<char>>)
    requires
        s.wf(),
    ensures
        s.deliver(reply).wf(),
        s.deliver(reply).substrate == s.substrate,
        s.deliver(reply).origin == s.origin,
        s.deliver(reply).max_depth == s.max_depth,
        s.root_is_settled() ==> s.deliver(reply).root_is_settled(),
{
    lemma_deliver(s, reply);
}

/// Every reply that a state awaits leaves strictly less work: whatever the replies
/// hold, a traversal comes to its end. A document that links back to itself or to
/// one that was accepted before cannot prolong it.
pub proof fn lemma_deliver_decreases(s: WalkState, reply: Reply<Seq<char>>)
    requires
        s.wf(),
        s.awaits(reply),
    ensures
        lex_less(s.deliver(reply).measure(), s.measure()),
{
    lemma_deliver(s, reply);
}

/// A state that awaits nothing asks for nothing, and a reply leaves it as it is.
pub proof fn lemma_done_is_final(s: WalkState, reply: Reply<Seq<char>>)
    requires
        s.request() is Done,
    ensures
        s.deliver(reply) == s,
        !s.awaits(reply),
{
}

proof fn lemma_deliver(s: WalkState, reply: Reply<Seq<char>>)
    requires
        s.wf(),
    ensures
        s.deliver(reply).wf(),
        s.deliver(reply).substrate == s.substrate,
        s.deliver(reply).origin == s.origin,
        s.deliver(reply).max_depth == s.max_depth,
        s.deliver(reply).head >= s.head,
        s.root_is_settled() ==> s.deliver(reply).root_is_settled(),
        s.awaits(reply) && s.deliver(reply).phase is Reading ==> s.deliver(reply).head > s.head,
        s.awaits(reply) ==> lex_less(s.deliver(reply).measure(), s.measure()),
{
    match (s.phase, reply) {
        (Phase::Opening(opening), Reply::Content(fetched)) => {
            lemma_deliver_opening(s, fetched);
        },
        (Phase::Reading, Reply::Content(fetched)) => {
            lemma_deliver_reading(s, fetched);
        },
        (Phase::Rooting, Reply::Resolved(resolved)) => {
            lemma_deliver_rooting(s, resolved);
        },
        (Phase::Resolving, Reply::Resolved(resolved)) => {
            lemma_deliver_resolving(s, resolved);
        },
        (Phase::Titling(location), Reply::Content(fetched)) => {
            lemma_deliver_titling(s, fetched);
        },
        _ => {},
    }
}

proof fn lemma_deliver_opening(s: WalkState, fetched: Result<Seq<char>, FetchError<Seq<char>>>)
    requires
        s.wf(),
        s.phase is Opening,
    ensures
        s.deliver(Reply::Content(fetched)).wf(),
        s.deliver(Reply::Content(fetched)).substrate == s.substrate,
        s.deliver(Reply::Content(fetched)).origin == s.origin,
        s.deliver(Reply::Content(fetched)).max_depth == s.max_depth,
        s.deliver(Reply::Content(fetched)).head >= s.head,
        s.root_is_settled() ==> s.deliver(Reply::Content(fetched)).root_is_settled(),
        s.deliver(Reply::Content(fetched)).phase is Reading ==> s.deliver(Reply::Content(fetched)).head > s.head,
        lex_less(s.deliver(Reply::Content(fetched)).measure(), s.measure()),
{
    let opening = s.phase->Opening_0;
    match settled(opening, fetched) {
        Opened::Loaded { content, url } => {
            if 0 < s.max_depth {
                let loaded = WalkState { head: 1, ..s }.with_candidates(
                    links_in(s.substrate, content, s.root()),
                );
                assert(loaded.level() == 0);
                assert(loaded.structured());
                assert(loaded.expanding());
                lemma_seek(loaded);
            } else {
                lemma_next_document(s);
            }
        },
        Opened::Retry(next) => {
            let retry = WalkState {
                entries: seq![root_entry(next.url)],
                phase: Phase::Opening(next),
                ..s
            };
            assert(retry.structured());
        },
        Opened::Failed(error) => {
            let failed = WalkState { phase: Phase::Failed(error), ..s };
            assert(failed.level() == s.level());
            assert(failed.structured());
        },
    }
}

proof fn lemma_deliver_rooting(s: WalkState, resolved: Option<Seq<char>>)
    requires
        s.wf(),
        s.phase is Rooting,
    ensures
        s.deliver(Reply::Resolved(resolved)).wf(),
        s.deliver(Reply::Resolved(resolved)).substrate == s.substrate,
        s.deliver(Reply::Resolved(resolved)).origin == s.origin,
        s.deliver(Reply::Resolved(resolved)).max_depth == s.max_depth,
        s.deliver(Reply::Resolved(resolved)).head >= s.head,
        s.deliver(Reply::Resolved(resolved)).root_is_settled(),
        s.deliver(Reply::Resolved(resolved)).phase is Reading ==> s.deliver(
            Reply::Resolved(resolved),
        ).head > s.head,
        lex_less(s.deliver(Reply::Resolved(resolved)).measure(), s.measure()),
{
    let root = match resolved {
        Some(canonical) => canonical,
        None => s.origin,
    };
    let known = WalkState { entries: seq![root_entry(root)], phase: Phase::Finished, ..s };
    assert(known.structured());
    lemma_next_document(known);
}

proof fn lemma_deliver_reading(s: WalkState, fetched: Result<Seq<char>, FetchError<Seq<char>>>)
    requires
        s.wf(),
        s.phase is Reading,
    ensures
        s.deliver(Reply::Content(fetched)).wf(),
        s.deliver(Reply::Content(fetched)).substrate == s.substrate,
        s.deliver(Reply::Content(fetched)).origin == s.origin,
        s.deliver(Reply::Content(fetched)).max_depth == s.max_depth,
        s.deliver(Reply::Content(fetched)).head >= s.head,
        s.root_is_settled() ==> s.deliver(Reply::Content(fetched)).root_is_settled(),
        s.deliver(Reply::Content(fetched)).phase is Reading ==> s.deliver(Reply::Content(fetched)).head > s.head,
        lex_less(s.deliver(Reply::Content(fetched)).measure(), s.measure()),
{
    let links = match fetched {
        Ok(content) => links_in(s.substrate, content, s.current().location),
        Err(_) => Seq::empty(),
    };
    let read = s.with_candidates(links);
    assert(read.level() == s.level());
    assert(read.structured());
    assert(read.expanding());
    lemma_seek(read);
}

proof fn lemma_deliver_resolving(s: WalkState, resolved: Option<Seq<char>>)
    requires
        s.wf(),
        s.phase is Resolving,
    ensures
        s.deliver(Reply::Resolved(resolved)).wf(),
        s.deliver(Reply::Resolved(resolved)).substrate == s.substrate,
        s.deliver(Reply::Resolved(resolved)).origin == s.origin,
        s.deliver(Reply::Resolved(resolved)).max_depth == s.max_depth,
        s.deliver(Reply::Resolved(resolved)).head >= s.head,
        s.root_is_settled() ==> s.deliver(Reply::Resolved(resolved)).root_is_settled(),
        s.deliver(Reply::Resolved(resolved)).phase is Reading ==> s.deliver(Reply::Resolved(resolved)).head > s.head,
        lex_less(s.deliver(Reply::Resolved(resolved)).measure(), s.measure()),
{
    let accept = match resolved {
        Some(path) => is_markdown(path) && !s.visited(path),
        None => false,
    };
    if accept {
        let path = resolved->0;
        let next = WalkState { phase: Phase::Titling(path), ..s };
        assert(next.level() == s.level());
        assert(next.structured());
        assert(next.visited(path) == s.visited(path));
    } else {
        let next = s.passed();
        assert(next.level() == s.level());
        assert(next.structured());
        assert(next.expanding());
        lemma_seek(next);
    }
}

proof fn lemma_deliver_titling(s: WalkState, fetched: Result<Seq<char>, FetchError<Seq<char>>>)
    requires
        s.wf(),
        s.phase is Titling,
    ensures
        s.deliver(Reply::Content(fetched)).wf(),
        s.deliver(Reply::Content(fetched)).substrate == s.substrate,
        s.deliver(Reply::Content(fetched)).origin == s.origin,
        s.deliver(Reply::Content(fetched)).max_depth == s.max_depth,
        s.deliver(Reply::Content(fetched)).head >= s.head,
        s.root_is_settled() ==> s.deliver(Reply::Content(fetched)).root_is_settled(),
        s.deliver(Reply::Content(fetched)).phase is Reading ==> s.deliver(Reply::Content(fetched)).head > s.head,
        lex_less(s.deliver(Reply::Content(fetched)).measure(), s.measure()),
{
    let location = s.phase->Titling_0;
    let title = title_in(s.substrate, fetched, location);
    lemma_accepted(s, location, title);
    lemma_seek(s.accepted(location, title));
}

/// No location is returned twice, and the root is never returned.
pub proof fn lemma_no_duplicates(s: WalkState)
    requires
        s.wf(),
    ensures
        forall|i: int, j: int|
            0 <= i < j < s.found().len() ==> (#[trigger] s.found()[i]).location != (
            #[trigger] s.found()[j]).location,
        forall|i: int| 0 <= i < s.found().len() ==> (#[trigger] s.found()[i]).location != s.root(),
{
    assert forall|i: int, j: int| 0 <= i < j < s.found().len() implies (
    #[trigger] s.found()[i]).location != (#[trigger] s.found()[j]).location by {
        assert(s.found()[i] == s.entries[i + 1]);
        assert(s.found()[j] == s.entries[j + 1]);
    }
    assert forall|i: int| 0 <= i < s.found().len() implies (#[trigger] s.found()[i]).location
        != s.root() by {
        assert(s.found()[i] == s.entries[i + 1]);
        assert(s.entries[0].location != s.entries[i + 1].location);
    }
}

/// Every returned document is at least one and at most `max_depth` links away from
/// the root, and its depth is the number of links that led to it.
pub proof fn lemma_depth_bound(s: WalkState, index: int)
    requires
        s.wf(),
        0 <= index < s.entries.len(),
    ensures
        s.hops(index) == s.entries[index].depth,
        s.entries[index].depth <= s.max_depth,
        index >= 1 ==> s.entries[index].depth >= 1,
    decreases index,
{
    if index >= 1 {
        let entry = s.entries[index];
        lemma_depth_bound(s, entry.parent as int);
    }
}

/// A document is read for its links only if it is fewer than `max_depth` links away
/// from the root: one at the bound is read for its title and never expanded.
pub proof fn lemma_expansion_bound(s: WalkState)
    requires
        s.wf(),
        s.phase is Reading || s.phase is Resolving || s.phase is Titling,
    ensures
        s.current().depth < s.max_depth,
        s.phase is Titling ==> s.current().depth + 1 <= s.max_depth,
{
}

/// An entry is found in the content of an entry that was taken from the queue
/// before it, one level above it.
pub proof fn lemma_parent_expanded(s: WalkState, index: int)
    requires
        s.wf(),
        1 <= index < s.entries.len(),
    ensures
        s.entries[index].parent < index,
        s.entries[index].parent < s.head,
        s.entries[index].depth == s.entries[s.entries[index].parent as int].depth + 1,
{
    let entry = s.entries[index];
}

/// A link that leads to nothing on disk, to something that is no markdown
/// document, or to a location that was accepted before adds no entry, and the links
/// behind it are looked at all the same.
pub proof fn lemma_dead_link_is_passed(s: WalkState, resolved: Option<Seq<char>>)
    requires
        s.wf(),
        s.phase is Resolving,
        resolved matches Some(path) ==> !is_markdown(path) || s.visited(path),
    ensures
        s.deliver(Reply::Resolved(resolved)) == s.passed().seek(),
        s.deliver(Reply::Resolved(resolved)).entries == s.entries,
{
    let next = s.passed();
    assert(next.level() == s.level());
    assert(next.structured());
    assert(next.expanding());
    lemma_seek(next);
}

/// A document that cannot be read is a dead end: it adds no entry, and the
/// traversal goes on with the next document of the queue.
pub proof fn lemma_unreadable_is_dead_end(s: WalkState, error: FetchError<Seq<char>>)
    requires
        s.wf(),
        s.phase is Reading,
    ensures
        s.deliver(Reply::Content(Err(error))) == s.with_candidates(Seq::empty()).next_document(),
        s.deliver(Reply::Content(Err(error))).entries == s.entries,
{
    let read = s.with_candidates(Seq::empty());
    assert(read.level() == s.level());
    assert(read.structured());
    lemma_next_document(read);
}

/// A document whose content cannot be had when its title is asked for is accepted
/// all the same, under the title that its location gives.
pub proof fn lemma_title_falls_back(s: WalkState, error: FetchError<Seq<char>>)
    requires
        s.wf(),
        s.phase is Titling,
    ensures
        s.deliver(Reply::Content(Err(error))).entries == s.entries.push(
            Entry {
                location: s.phase->Titling_0,
                title: match s.substrate {
                    Substrate::Local => crate::local::local_fallback(s.phase->Titling_0),
                    Substrate::Remote => crate::remote::remote_fallback(s.phase->Titling_0),
                },
                depth: s.current().depth + 1,
                parent: (s.head - 1) as nat,
            },
        ),
{
    let location = s.phase->Titling_0;
    let title = title_in(s.substrate, Err(error), location);
    lemma_accepted(s, location, title);
    lemma_seek(s.accepted(location, title));
}

/// Once the root is settled, a reply never changes or removes an entry, and adds at
/// most one: the documents are returned in the order of their discovery.
pub proof fn lemma_entries_are_kept(s: WalkState, reply: Reply<Seq<char>>)
    requires
        s.wf(),
        s.root_is_settled(),
    ensures
        s.deliver(reply).entries.len() <= s.entries.len() + 1,
        s.entries.is_prefix_of(s.deliver(reply).entries),
{
    match (s.phase, reply) {
        (Phase::Reading, Reply::Content(fetched)) => {
            lemma_deliver_reading(s, fetched);
            let links = match fetched {
                Ok(content) => links_in(s.substrate, content, s.current().location),
                Err(_) => Seq::empty(),
            };
            let read = s.with_candidates(links);
            assert(read.level() == s.level());
            assert(read.structured());
            lemma_seek(read);
        },
        (Phase::Resolving, Reply::Resolved(resolved)) => {
            let accept = match resolved {
                Some(path) => is_markdown(path) && !s.visited(path),
                None => false,
            };
            if !accept {
                lemma_dead_link_is_passed(s, resolved);
            }
        },
        (Phase::Titling(location), Reply::Content(fetched)) => {
            let title = title_in(s.substrate, fetched, location);
            lemma_accepted(s, location, title);
            lemma_seek(s.accepted(location, title));
            assert(s.entries =~= s.entries.push(s.accepted(location, title).entries.last()).subrange(
                0,
                s.entries.len() as int,
            ));
        },
        _ => {},
    }
    assert(s.entries =~= s.entries.subrange(0, s.entries.len() as int));
}

/// The invariant holds in every state that a traversal reaches, whatever the
/// replies: so does all that is proved from it, of the order, the depth and the
/// distinctness of the documents.
pub proof fn lemma_invariant_holds(start: WalkState, replies: Seq<Reply<Seq<char>>>)
    requires
        start.wf(),
    ensures
        after(start, replies).wf(),
    decreases replies.len(),
{
    if replies.len() > 0 {
        lemma_invariant_holds(start, replies.drop_last());
        lemma_deliver_wf(after(start, replies.drop_last()), replies.last());
    }
}

/// Once the root entry is settled it stays as it is, whatever the replies.
pub proof fn lemma_root_stays(start: WalkState, replies: Seq<Reply<Seq<char>>>)
    requires
        start.wf(),
        start.root_is_settled(),
    ensures
        after(start, replies).wf(),
        after(start, replies).root_is_settled(),
        after(start, replies).root() == start.root(),
    decreases replies.len(),
{
    if replies.len() > 0 {
        let before = after(start, replies.drop_last());
        lemma_root_stays(start, replies.drop_last());
        lemma_deliver_wf(before, replies.last());
        lemma_entries_are_kept(before, replies.last());
        assert(before.entries[0] == before.deliver(replies.last()).entries[0]);
    }
}

/// The root as the caller named it is never returned, whatever the replies: not on
/// disk, where the root entry is known by its canonical path, and not where the
/// caller named a repository, whose root entry is the README.
pub proof fn lemma_origin_is_not_found(start: WalkState, replies: Seq<Reply<Seq<char>>>)
    requires
        start.wf(),
    ensures
        after(start, replies).wf(),
        after(start, replies).origin == start.origin,
        forall|i: int|
            0 <= i < after(start, replies).found().len() ==> (#[trigger] after(
                start,
                replies,
            ).found()[i]).location != start.origin,
    decreases replies.len(),
{
    if replies.len() > 0 {
        lemma_origin_is_not_found(start, replies.drop_last());
        lemma_deliver_wf(after(start, replies.drop_last()), replies.last());
    }
    let end = after(start, replies);
    assert forall|i: int| 0 <= i < end.found().len() implies (#[trigger] end.found()[i]).location
        != start.origin by {
        assert(end.found()[i] == end.entries[i + 1]);
    }
}

/// The root of a traversal on disk is the canonical form that the first reply gave
/// for the path that the caller named, or that path itself where the reply gave
/// none; and so it stays, whatever the replies that follow. No document is returned
/// under it.
pub proof fn lemma_root_is_canonical(
    root: Seq<char>,
    max_depth: nat,
    resolved: Option<Seq<char>>,
    replies: Seq<Reply<Seq<char>>>,
)
    ensures
        ({
            let rooted = WalkState::start(Substrate::Local, root, max_depth).deliver(
                Reply::Resolved(resolved),
            );
            let end = after(rooted, replies);
            &&& end.wf()
            &&& end.root() == match resolved {
                Some(canonical) => canonical,
                None => root,
            }
            &&& forall|i: int|
                0 <= i < end.found().len() ==> (#[trigger] end.found()[i]).location != end.root()
        }),
{
    let start = WalkState::start(Substrate::Local, root, max_depth);
    lemma_start_wf(Substrate::Local, root, max_depth);
    let rooted = start.deliver(Reply::Resolved(resolved));
    lemma_deliver_wf(start, Reply::Resolved(resolved));
    lemma_deliver_rooting(start, resolved);
    let known = WalkState {
        entries: seq![
            root_entry(
                match resolved {
                    Some(canonical) => canonical,
                    None => root,
                },
            ),
        ],
        phase: Phase::Finished,
        ..start
    };
    assert(known.structured());
    lemma_next_document(known);
    lemma_root_stays(rooted, replies);
    lemma_no_duplicates(after(rooted, replies));
}

/// The queue is only ever taken from: a reply never puts the head back, and a reply
/// that leads to the next request for a document's links has taken that document
/// from the queue.
pub proof fn lemma_head_moves_on(s: WalkState, reply: Reply<Seq<char>>)
    requires
        s.wf(),
    ensures
        s.deliver(reply).head >= s.head,
        s.awaits(reply) && s.deliver(reply).phase is Reading ==> s.deliver(reply).head > s.head,
        !s.awaits(reply) ==> s.deliver(reply) == s,
{
    lemma_deliver(s, reply);
}

/// A reply adds an entry exactly when it answers the request for a title; no other
/// reply changes the number of entries.
pub proof fn lemma_entries_are_counted(s: WalkState, reply: Reply<Seq<char>>)
    requires
        s.wf(),
    ensures
        s.deliver(reply).entries.len() == s.entries.len() + if s.phase is Titling && s.awaits(
            reply,
        ) {
            1nat
        } else {
            0nat
        },
{
    match (s.phase, reply) {
        (Phase::Opening(opening), Reply::Content(fetched)) => {
            match settled(opening, fetched) {
                Opened::Loaded { content, url } => {
                    if 0 < s.max_depth {
                        let loaded = WalkState { head: 1, ..s }.with_candidates(
                            links_in(s.substrate, content, s.root()),
                        );
                        assert(loaded.level() == 0);
                        assert(loaded.structured());
                        assert(loaded.expanding());
                        lemma_seek(loaded);
                    } else {
                        lemma_next_document(s);
                    }
                },
                _ => {},
            }
        },
        (Phase::Rooting, Reply::Resolved(resolved)) => {
            let root = match resolved {
                Some(canonical) => canonical,
                None => s.origin,
            };
            let known = WalkState { entries: seq![root_entry(root)], phase: Phase::Finished, ..s };
            assert(known.structured());
            lemma_next_document(known);
        },
        (Phase::Titling(location), Reply::Content(fetched)) => {
            let title = title_in(s.substrate, fetched, location);
            lemma_accepted(s, location, title);
            lemma_seek(s.accepted(location, title));
        },
        _ => {
            if s.root_is_settled() {
                lemma_entries_are_kept(s, reply);
                if s.phase is Reading {
                    let fetched = reply->Content_0;
                    let links = match fetched {
                        Ok(content) => links_in(s.substrate, content, s.current().location),
                        Err(_) => Seq::empty(),
                    };
                    let read = s.with_candidates(links);
                    assert(read.level() == s.level());
                    assert(read.structured());
                    lemma_seek(read);
                } else if s.phase is Resolving {
                    let resolved = reply->Resolved_0;
                    let accept = match resolved {
                        Some(path) => is_markdown(path) && !s.visited(path),
                        None => false,
                    };
                    if !accept {
                        lemma_dead_link_is_passed(s, resolved);
                    }
                }
            }
        },
    }
}

/// No more documents are read for their links than were taken from the queue, and
/// so no more than there are entries: every document is read for its links at most
/// once.
pub proof fn lemma_reads_are_bounded(start: WalkState, replies: Seq<Reply<Seq<char>>>)
    requires
        start.wf(),
    ensures
        after(start, replies).wf(),
        reads(start, replies) + if after(start, replies).phase is Reading {
            1nat
        } else {
            0nat
        } <= after(start, replies).head,
        after(start, replies).head <= after(start, replies).entries.len(),
    decreases replies.len(),
{
    if replies.len() > 0 {
        let before = after(start, replies.drop_last());
        lemma_reads_are_bounded(start, replies.drop_last());
        lemma_deliver_wf(before, replies.last());
        lemma_head_moves_on(before, replies.last());
    }
}

/// Every entry but the root was read for its title exactly once: from a start at
/// which the root is the only entry, the titles that were asked for and answered
/// are as many as the documents that were discovered.
pub proof fn lemma_titles_are_counted(start: WalkState, replies: Seq<Reply<Seq<char>>>)
    requires
        start.wf(),
    ensures
        after(start, replies).wf(),
        titles(start, replies) + start.entries.len() == after(start, replies).entries.len(),
    decreases replies.len(),
{
    if replies.len() > 0 {
        let before = after(start, replies.drop_last());
        lemma_titles_are_counted(start, replies.drop_last());
        lemma_deliver_wf(before, replies.last());
        lemma_entries_are_counted(before, replies.last());
    }
}

/// After `later` replies from a state in which the queue stood at `mark` at most,
/// the entries of that state are all still there, and a document whose links are
/// asked for was taken from the queue behind `mark`.
proof fn lemma_reads_lie_ahead(s: WalkState, mark: nat, later: Seq<Reply<Seq<char>>>)
    requires
        s.wf(),
        s.root_is_settled(),
        s.head >= mark,
        s.phase is Reading ==> s.head > mark,
    ensures
        after(s, later).wf(),
        after(s, later).root_is_settled(),
        after(s, later).head >= mark,
        after(s, later).phase is Reading ==> after(s, later).head > mark,
        s.entries.is_prefix_of(after(s, later).entries),
    decreases later.len(),
{
    if later.len() > 0 {
        let before = after(s, later.drop_last());
        lemma_reads_lie_ahead(s, mark, later.drop_last());
        lemma_deliver_wf(before, later.last());
        lemma_head_moves_on(before, later.last());
        lemma_entries_are_kept(before, later.last());
        let end = before.deliver(later.last());
        assert(s.entries =~= end.entries.subrange(0, s.entries.len() as int)) by {
            assert(s.entries =~= before.entries.subrange(0, s.entries.len() as int));
            assert(before.entries =~= end.entries.subrange(0, before.entries.len() as int));
        }
    } else {
        assert(s.entries =~= s.entries.subrange(0, s.entries.len() as int));
    }
}

/// No document is read for its links twice: once the request for the links of a
/// document was answered, no state that follows, whatever the replies, asks for the
/// links of that document again. A document that links to itself or back to one
/// before it is so never taken up again.
pub proof fn lemma_read_once(
    s: WalkState,
    fetched: Result<Seq<char>, FetchError<Seq<char>>>,
    later: Seq<Reply<Seq<char>>>,
)
    requires
        s.wf(),
        s.phase is Reading,
    ensures
        after(s.deliver(Reply::Content(fetched)), later).phase is Reading ==> after(
            s.deliver(Reply::Content(fetched)),
            later,
        ).current().location != s.current().location,
{
    let reply = Reply::Content(fetched);
    let next = s.deliver(reply);
    lemma_deliver_wf(s, reply);
    lemma_head_moves_on(s, reply);
    lemma_entries_are_kept(s, reply);
    lemma_reads_lie_ahead(next, s.head, later);
    let end = after(next, later);
    if end.phase is Reading {
        let taken = (s.head - 1) as int;
        assert(next.entries.subrange(0, s.entries.len() as int) =~= s.entries);
        assert(end.entries.subrange(0, next.entries.len() as int) =~= next.entries);
        assert(end.entries[taken] == s.entries[taken]);
        assert(end.entries[taken].location != end.entries[end.head - 1].location);
    }
}

} // verus!
