//! The listing of a directory: which of its entries are shown, and in what order.
//! Reading the directory is the caller's part.

use crate::text::{chars_of, starts_with};
use crate::unicode::{lowercase_of, text_lowercase};
use vstd::prelude::*;

verus! {

/// An entry of a directory.
#[derive(Debug, Clone)]
pub struct FileEntry {
    /// The name of the entry within its directory.
    pub name: String,
    /// The path of the entry.
    pub path: String,
    /// Whether the entry is a directory.
    pub is_directory: bool,
}

/// An entry of a directory, as specifications see it.
pub struct Listed {
    pub name: Seq<char>,
    pub path: Seq<char>,
    pub is_directory: bool,
}

impl View for FileEntry {
    type V = Listed;

    open spec fn view(&self) -> Listed {
        Listed { name: self.name@, path: self.path@, is_directory: self.is_directory }
    }
}

/// The views of a sequence of entries.
pub open spec fn entries_view(entries: Seq<FileEntry>) -> Seq<Listed> {
    entries.map_values(|entry: FileEntry| entry@)
}

/// An entry is hidden when its name begins with a dot.
pub open spec fn is_hidden(name: Seq<char>) -> bool {
    name.len() > 0 && name[0] == '.'
}

/// `a` comes before `b` in the order of the dictionary, character by character; a
/// text comes after its proper beginnings.
pub open spec fn text_less(a: Seq<char>, b: Seq<char>) -> bool
    decreases a.len(),
{
    if b.len() == 0 {
        false
    } else if a.len() == 0 {
        true
    } else if a[0] != b[0] {
        (a[0] as int) < (b[0] as int)
    } else {
        text_less(a.skip(1), b.skip(1))
    }
}

/// `a` is listed before `b`: a directory before a file, and of two of a kind the
/// one whose name comes first when case is put aside.
pub open spec fn comes_before(a: Listed, b: Listed) -> bool {
    if a.is_directory != b.is_directory {
        a.is_directory
    } else {
        text_less(lowercase_of(a.name), lowercase_of(b.name))
    }
}

/// Where `entry` goes into `sorted`, looking at its first `upto` entries: behind the
/// last of them that it does not come before.
pub open spec fn place_of(sorted: Seq<Listed>, entry: Listed, upto: int) -> int
    decreases upto,
{
    if upto <= 0 || upto > sorted.len() || !comes_before(entry, sorted[upto - 1]) {
        upto
    } else {
        place_of(sorted, entry, upto - 1)
    }
}

/// The listing of the entries of a directory, given in the order in which the
/// directory was read: the hidden entries are left out, and each of the others is
/// placed, in turn, behind the last entry that it does not come before. The listing
/// is so in order, and entries that neither come before the other keep the order in
/// which they were read.
pub open spec fn listing(entries: Seq<Listed>) -> Seq<Listed>
    decreases entries.len(),
{
    if entries.len() == 0 {
        Seq::empty()
    } else {
        let before = listing(entries.drop_last());
        let entry = entries.last();
        if is_hidden(entry.name) {
            before
        } else {
            before.insert(place_of(before, entry, before.len() as int), entry)
        }
    }
}

/// No entry of `entries` comes before one that stands in front of it.
pub open spec fn in_order(entries: Seq<Listed>) -> bool {
    forall|i: int, j: int|
        0 <= i < j < entries.len() ==> !comes_before(#[trigger] entries[j], #[trigger] entries[i])
}

/// Whether `a` comes before `b` in the order of the dictionary.
pub fn text_precedes(a: &str, b: &str) -> (r: bool)
    ensures
        r == text_less(a@, b@),
{
    let left = chars_of(a);
    let right = chars_of(b);
    let mut i: usize = 0;
    assert(a@.skip(0) =~= a@ && b@.skip(0) =~= b@);
    while i < left.len() && i < right.len() && left[i] == right[i]
        invariant
            left@ == a@,
            right@ == b@,
            i <= left.len(),
            i <= right.len(),
            text_less(a@, b@) == text_less(a@.skip(i as int), b@.skip(i as int)),
        decreases left.len() - i,
    {
        assert(a@.skip(i as int).skip(1) == a@.skip(i + 1));
        assert(b@.skip(i as int).skip(1) == b@.skip(i + 1));
        i += 1;
    }
    if i >= right.len() {
        false
    } else if i >= left.len() {
        true
    } else {
        left[i] < right[i]
    }
}

/// Whether `name` is that of a hidden entry.
pub fn name_is_hidden(name: &str) -> (r: bool)
    ensures
        r == is_hidden(name@),
{
    proof {
        reveal_strlit(".");
    }
    let dot = ".";
    assert(dot@.len() == 1 && dot@[0] == '.');
    assert(dot@.is_prefix_of(name@) == is_hidden(name@)) by {
        if is_hidden(name@) {
            assert(dot@ =~= name@.subrange(0, 1));
        }
        if dot@.is_prefix_of(name@) {
            assert(name@.subrange(0, 1)[0] == dot@[0]);
        }
    }
    starts_with(name, dot)
}

/// Whether `a` is listed before `b`.
pub fn entry_comes_before(a: &FileEntry, b: &FileEntry) -> (r: bool)
    ensures
        r == comes_before(a@, b@),
{
    if a.is_directory != b.is_directory {
        a.is_directory
    } else {
        let left = text_lowercase(a.name.as_str());
        let right = text_lowercase(b.name.as_str());
        text_precedes(left.as_str(), right.as_str())
    }
}

/// Lists the entries of a directory: drops the hidden ones and puts the others in
/// order, directories first.
pub fn read_directory(entries: &Vec<FileEntry>) -> (listed: Vec<FileEntry>)
    ensures
        entries_view(listed@) == listing(entries_view(entries@)),
{
    let ghost all = entries_view(entries@);
    let mut listed: Vec<FileEntry> = Vec::new();
    let mut done: usize = 0;
    while done < entries.len()
        invariant
            done <= entries.len(),
            all == entries_view(entries@),
            entries_view(listed@) == listing(all.take(done as int)),
        decreases entries.len() - done,
    {
        let ghost before = entries_view(listed@);
        let entry = FileEntry {
            name: entries[done].name.clone(),
            path: entries[done].path.clone(),
            is_directory: entries[done].is_directory,
        };
        proof {
            assert(all[done as int] == entry@);
            assert(all.take(done + 1).drop_last() == all.take(done as int));
            assert(all.take(done + 1).last() == entry@);
        }
        if !name_is_hidden(entry.name.as_str()) {
            let mut place: usize = listed.len();
            while place > 0 && entry_comes_before(&entry, &listed[place - 1])
                invariant
                    place <= listed.len(),
                    before == entries_view(listed@),
                    place_of(before, entry@, before.len() as int) == place_of(
                        before,
                        entry@,
                        place as int,
                    ),
                decreases place,
            {
                assert(before[place - 1] == listed[place - 1]@);
                place -= 1;
            }
            proof {
                if place > 0 {
                    assert(before[place - 1] == listed[place - 1]@);
                }
            }
            listed.insert(place, entry);
            assert(entries_view(listed@) =~= before.insert(place as int, entry@));
        }
        done += 1;
    }
    assert(all.take(entries.len() as int) == all);
    listed
}

/// The order of the dictionary never puts two texts each before the other.
pub proof fn lemma_text_less_asymmetric(a: Seq<char>, b: Seq<char>)
    ensures
        !(text_less(a, b) && text_less(b, a)),
    decreases a.len(),
{
    if a.len() > 0 && b.len() > 0 && a[0] == b[0] {
        lemma_text_less_asymmetric(a.skip(1), b.skip(1));
    }
}

/// If `x` does not come before `y` and `y` does not come before `z`, then `x` does
/// not come before `z`.
pub proof fn lemma_text_less_ranks(x: Seq<char>, y: Seq<char>, z: Seq<char>)
    requires
        !text_less(x, y),
        !text_less(y, z),
    ensures
        !text_less(x, z),
    decreases x.len(),
{
    if z.len() > 0 {
        assert(y.len() > 0);
        assert(x.len() > 0);
        if x[0] == y[0] && y[0] == z[0] {
            lemma_text_less_ranks(x.skip(1), y.skip(1), z.skip(1));
        }
    }
}

/// The order of the listing never puts two entries each before the other.
pub proof fn lemma_comes_before_asymmetric(a: Listed, b: Listed)
    ensures
        !(comes_before(a, b) && comes_before(b, a)),
{
    lemma_text_less_asymmetric(lowercase_of(a.name), lowercase_of(b.name));
}

/// If `x` is not listed before `y` and `y` is not listed before `z`, then `x` is
/// not listed before `z`.
pub proof fn lemma_comes_before_ranks(x: Listed, y: Listed, z: Listed)
    requires
        !comes_before(x, y),
        !comes_before(y, z),
    ensures
        !comes_before(x, z),
{
    if x.is_directory == y.is_directory && y.is_directory == z.is_directory {
        lemma_text_less_ranks(lowercase_of(x.name), lowercase_of(y.name), lowercase_of(z.name));
    }
}

/// Placing an entry keeps a listing in order.
proof fn lemma_place_keeps_order(sorted: Seq<Listed>, entry: Listed, upto: int)
    requires
        in_order(sorted),
        0 <= upto <= sorted.len(),
        forall|j: int| upto <= j < sorted.len() ==> comes_before(entry, #[trigger] sorted[j]),
    ensures
        in_order(sorted.insert(place_of(sorted, entry, upto), entry)),
    decreases upto,
{
    if upto <= 0 || !comes_before(entry, sorted[upto - 1]) {
        let placed = sorted.insert(upto, entry);
        assert forall|i: int, j: int| 0 <= i < j < placed.len() implies !comes_before(
            #[trigger] placed[j],
            #[trigger] placed[i],
        ) by {
            if j == upto {
                // The entry against one in front of it.
                let last = sorted[upto - 1];
                let front = sorted[i];
                assert(placed[i] == front);
                assert(placed[j] == entry);
                if i < upto - 1 {
                    assert(!comes_before(last, front));
                    lemma_comes_before_ranks(entry, last, front);
                }
            } else if i == upto {
                // One behind the entry against the entry.
                let behind = sorted[j - 1];
                assert(placed[j] == behind);
                assert(placed[i] == entry);
                assert(comes_before(entry, behind));
                lemma_comes_before_asymmetric(entry, behind);
            } else {
                let a = if i < upto { i } else { i - 1 };
                let b = if j < upto { j } else { j - 1 };
                assert(placed[i] == sorted[a]);
                assert(placed[j] == sorted[b]);
            }
        }
    } else {
        lemma_place_keeps_order(sorted, entry, upto - 1);
    }
}

/// A listing is in order: no entry comes before one that stands in front of it.
pub proof fn lemma_listing_in_order(entries: Seq<Listed>)
    ensures
        in_order(listing(entries)),
    decreases entries.len(),
{
    if entries.len() > 0 {
        let before = listing(entries.drop_last());
        lemma_listing_in_order(entries.drop_last());
        if !is_hidden(entries.last().name) {
            lemma_place_keeps_order(before, entries.last(), before.len() as int);
        }
    }
}

/// A listing holds the entries that are not hidden, each as often as the directory
/// does, and nothing else.
pub proof fn lemma_listing_holds_the_shown(entries: Seq<Listed>)
    ensures
        listing(entries).to_multiset() == entries.filter(
            |entry: Listed| !is_hidden(entry.name),
        ).to_multiset(),
    decreases entries.len(),
{
    broadcast use vstd::seq_lib::group_to_multiset_ensures;

    let shown = |entry: Listed| !is_hidden(entry.name);
    if entries.len() == 0 {
        assert(entries.filter(shown) =~= Seq::<Listed>::empty());
    } else {
        let front = entries.drop_last();
        let entry = entries.last();
        let before = listing(front);
        lemma_listing_holds_the_shown(front);
        reveal(Seq::filter);
        assert(entries.filter(shown) == if shown(entry) {
            front.filter(shown).push(entry)
        } else {
            front.filter(shown)
        });
        if shown(entry) {
            lemma_place_in_range(before, entry, before.len() as int);
            let place = place_of(before, entry, before.len() as int);
            vstd::seq_lib::to_multiset_insert(before, place, entry);
            vstd::seq_lib::to_multiset_build(front.filter(shown), entry);
        }
    }
}

/// The place of an entry lies within the listing.
proof fn lemma_place_in_range(sorted: Seq<Listed>, entry: Listed, upto: int)
    requires
        0 <= upto <= sorted.len(),
    ensures
        0 <= place_of(sorted, entry, upto) <= upto,
    decreases upto,
{
    if !(upto <= 0 || !comes_before(entry, sorted[upto - 1])) {
        lemma_place_in_range(sorted, entry, upto - 1);
    }
}

} // verus!
