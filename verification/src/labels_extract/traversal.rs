//! What an extraction visits: the whole of the tree below the root, and nothing else.

use vstd::prelude::*;

use super::DiscEntry;
use super::Extraction;
use super::PlaceView;

verus! {

/// What a directory of a disc holds: nothing where there is no such directory.
pub open spec fn entries_at(
    disc: spec_fn(Seq<char>) -> Option<Seq<DiscEntry>>,
    place: PlaceView,
) -> Seq<DiscEntry> {
    match disc(place.disc_path) {
        Some(entries) => entries,
        None => Seq::empty(),
    }
}

/// The directories that are still to be visited after one more directory was visited: the last one
/// makes way for those that it holds.
pub open spec fn work_after(
    disc: spec_fn(Seq<char>) -> Option<Seq<DiscEntry>>,
    work: Seq<PlaceView>,
) -> Seq<PlaceView> {
    work.drop_last() + super::directories(work.last(), entries_at(disc, work.last()))
}

/// The first `n` directories that are visited, in order.
pub open spec fn visited(
    disc: spec_fn(Seq<char>) -> Option<Seq<DiscEntry>>,
    work: Seq<PlaceView>,
    n: nat,
) -> Seq<PlaceView>
    decreases n,
{
    if n == 0 || work.len() == 0 {
        Seq::empty()
    } else {
        seq![work.last()] + visited(disc, work_after(disc, work), (n - 1) as nat)
    }
}

/// Whether all directories are visited after `n` of them.
pub open spec fn is_finished(
    disc: spec_fn(Seq<char>) -> Option<Seq<DiscEntry>>,
    work: Seq<PlaceView>,
    n: nat,
) -> bool
    decreases n,
{
    work.len() == 0 || (n > 0 && is_finished(disc, work_after(disc, work), (n - 1) as nat))
}

/// Whether a directory is so many levels below another one.
pub open spec fn lies_below(
    disc: spec_fn(Seq<char>) -> Option<Seq<DiscEntry>>,
    top: PlaceView,
    place: PlaceView,
    levels: nat,
) -> bool
    decreases levels,
{
    if levels == 0 {
        place == top
    } else {
        exists|i: int|
            0 <= i < super::directories(top, entries_at(disc, top)).len() && lies_below(
                disc,
                #[trigger] super::directories(top, entries_at(disc, top))[i],
                place,
                (levels - 1) as nat,
            )
    }
}

/// Whether a directory lies below one of those that are to be visited, or is one of them.
pub open spec fn is_owed(
    disc: spec_fn(Seq<char>) -> Option<Seq<DiscEntry>>,
    work: Seq<PlaceView>,
    place: PlaceView,
) -> bool {
    exists|i: int, levels: nat|
        0 <= i < work.len() && #[trigger] lies_below(disc, work[i], place, levels)
}

/// No directory is lost and none is made up: what is owed before a visit is the directory visited
/// and what is owed after it.
pub proof fn law_visit_keeps_what_is_owed(
    disc: spec_fn(Seq<char>) -> Option<Seq<DiscEntry>>,
    work: Seq<PlaceView>,
    place: PlaceView,
)
    requires
        work.len() > 0,
    ensures
        is_owed(disc, work, place) <==> (place == work.last() || is_owed(
            disc,
            work_after(disc, work),
            place,
        )),
{
    let top = work.last();
    let below = super::directories(top, entries_at(disc, top));
    let after = work_after(disc, work);
    if is_owed(disc, work, place) {
        let (i, levels) = choose|i: int, levels: nat|
            0 <= i < work.len() && #[trigger] lies_below(disc, work[i], place, levels);
        if i < work.len() - 1 {
            assert(after[i] == work[i]);
            assert(lies_below(disc, after[i], place, levels));
        } else if levels > 0 {
            let k = choose|k: int|
                0 <= k < below.len() && lies_below(
                    disc,
                    #[trigger] below[k],
                    place,
                    (levels - 1) as nat,
                );
            let j = work.len() - 1 + k;
            assert(after[j] == below[k]);
            assert(lies_below(disc, after[j], place, (levels - 1) as nat));
        }
    }
    if place == top {
        assert(lies_below(disc, work[work.len() - 1], place, 0));
    }
    if is_owed(disc, after, place) {
        let (i, levels) = choose|i: int, levels: nat|
            0 <= i < after.len() && #[trigger] lies_below(disc, after[i], place, levels);
        if i < work.len() - 1 {
            assert(after[i] == work[i]);
            assert(lies_below(disc, work[i], place, levels));
        } else {
            let k = i - (work.len() - 1);
            assert(after[i] == below[k]);
            assert(lies_below(disc, below[k], place, levels));
            assert(lies_below(disc, work[work.len() - 1], place, levels + 1));
        }
    }
}

/// An extraction that comes to its end has visited every directory at or below those that it
/// started from, and no other.
pub proof fn law_whole_tree_is_visited(
    disc: spec_fn(Seq<char>) -> Option<Seq<DiscEntry>>,
    work: Seq<PlaceView>,
    n: nat,
    place: PlaceView,
)
    requires
        is_finished(disc, work, n),
    ensures
        visited(disc, work, n).contains(place) <==> is_owed(disc, work, place),
    decreases n,
{
    if work.len() > 0 {
        let after = work_after(disc, work);
        let rest = visited(disc, after, (n - 1) as nat);
        law_visit_keeps_what_is_owed(disc, work, place);
        law_whole_tree_is_visited(disc, after, (n - 1) as nat, place);
        let all = visited(disc, work, n);
        assert(all[0] == work.last());
        assert(forall|i: int| 0 <= i < rest.len() ==> all[i + 1] == #[trigger] rest[i]);
        if rest.contains(place) {
            let i = choose|i: int| 0 <= i < rest.len() && rest[i] == place;
            assert(all[i + 1] == place);
        }
        if all.contains(place) {
            let i = choose|i: int| 0 <= i < all.len() && all[i] == place;
            if i > 0 {
                assert(all[i] == rest[i - 1]);
            }
        }
    }
}

/// What an extraction counts.
pub struct Counts {
    pub written: nat,
    pub skipped_size: nat,
    pub skipped_read: nat,
}

impl Counts {
    /// How many files are counted.
    pub open spec fn total(self) -> nat {
        self.written + self.skipped_size + self.skipped_read
    }
}

/// What an extraction has counted.
pub open spec fn counts_of(extraction: Extraction) -> Counts {
    Counts {
        written: extraction.written as nat,
        skipped_size: extraction.skipped_size as nat,
        skipped_read: extraction.skipped_read as nat,
    }
}

/// How many of the files at some places can be read.
pub open spec fn readable_count(places: Seq<PlaceView>, readable: spec_fn(PlaceView) -> bool) -> nat
    decreases places.len(),
{
    if places.len() == 0 {
        0
    } else {
        readable_count(places.drop_last(), readable) + if readable(places.last()) {
            1nat
        } else {
            0nat
        }
    }
}

/// What is counted after a directory was visited and each file that it hands out was written or
/// found unreadable.
pub open spec fn counts_after_directory(
    counts: Counts,
    place: PlaceView,
    entries: Seq<DiscEntry>,
    readable: spec_fn(PlaceView) -> bool,
) -> Counts {
    let files = super::wanted_files(place, entries);
    Counts {
        written: counts.written + readable_count(files, readable),
        skipped_size: counts.skipped_size + super::too_large_count(entries),
        skipped_read: (counts.skipped_read + files.len() - readable_count(files, readable)) as nat,
    }
}

/// What is counted after `n` more directories.
pub open spec fn counts_after(
    disc: spec_fn(Seq<char>) -> Option<Seq<DiscEntry>>,
    readable: spec_fn(PlaceView) -> bool,
    work: Seq<PlaceView>,
    n: nat,
    counts: Counts,
) -> Counts
    decreases n,
{
    if n == 0 || work.len() == 0 {
        counts
    } else {
        counts_after(
            disc,
            readable,
            work_after(disc, work),
            (n - 1) as nat,
            counts_after_directory(counts, work.last(), entries_at(disc, work.last()), readable),
        )
    }
}

/// How many of the entries are files.
pub open spec fn file_count(entries: Seq<DiscEntry>) -> nat
    decreases entries.len(),
{
    if entries.len() == 0 {
        0
    } else {
        file_count(entries.drop_last()) + if entries.last().is_dir {
            0nat
        } else {
            1nat
        }
    }
}

/// How many files there are in a directory and those below it, so many levels deep.
pub open spec fn files_below(
    disc: spec_fn(Seq<char>) -> Option<Seq<DiscEntry>>,
    place: PlaceView,
    levels: nat,
) -> nat
    decreases levels, 0nat,
{
    if levels == 0 {
        0
    } else {
        let entries = entries_at(disc, place);
        file_count(entries) + files_in(
            disc,
            super::directories(place, entries),
            (levels - 1) as nat,
        )
    }
}

/// How many files there are in some directories and those below them, so many levels deep.
pub open spec fn files_in(
    disc: spec_fn(Seq<char>) -> Option<Seq<DiscEntry>>,
    places: Seq<PlaceView>,
    levels: nat,
) -> nat
    decreases levels, places.len(),
{
    if places.len() == 0 {
        0
    } else {
        files_in(disc, places.drop_last(), levels) + files_below(disc, places.last(), levels)
    }
}

proof fn lemma_files_are_wanted_or_too_large(place: PlaceView, entries: Seq<DiscEntry>)
    ensures
        super::wanted_files(place, entries).len() + super::too_large_count(entries) == file_count(
            entries,
        ),
    decreases entries.len(),
{
    if entries.len() > 0 {
        lemma_files_are_wanted_or_too_large(place, entries.drop_last());
    }
}

proof fn lemma_readable_are_some(places: Seq<PlaceView>, readable: spec_fn(PlaceView) -> bool)
    ensures
        readable_count(places, readable) <= places.len(),
    decreases places.len(),
{
    if places.len() > 0 {
        lemma_readable_are_some(places.drop_last(), readable);
    }
}

proof fn lemma_files_in_both(
    disc: spec_fn(Seq<char>) -> Option<Seq<DiscEntry>>,
    a: Seq<PlaceView>,
    b: Seq<PlaceView>,
    levels: nat,
)
    ensures
        files_in(disc, a + b, levels) == files_in(disc, a, levels) + files_in(disc, b, levels),
    decreases b.len(),
{
    if b.len() == 0 {
        assert(a + b =~= a);
    } else {
        lemma_files_in_both(disc, a, b.drop_last(), levels);
        assert((a + b).drop_last() =~= a + b.drop_last());
    }
}

proof fn lemma_deeper_is_no_less(
    disc: spec_fn(Seq<char>) -> Option<Seq<DiscEntry>>,
    places: Seq<PlaceView>,
    levels: nat,
)
    ensures
        files_in(disc, places, levels) <= files_in(disc, places, levels + 1),
    decreases levels, places.len(),
{
    if places.len() > 0 {
        lemma_deeper_is_no_less(disc, places.drop_last(), levels);
        let entries = entries_at(disc, places.last());
        let below = super::directories(places.last(), entries);
        assert(files_below(disc, places.last(), levels + 1) == file_count(entries) + files_in(
            disc,
            below,
            levels,
        ));
        if levels > 0 {
            lemma_deeper_is_no_less(disc, below, (levels - 1) as nat);
            assert(files_below(disc, places.last(), levels) == file_count(entries) + files_in(
                disc,
                below,
                (levels - 1) as nat,
            ));
            assert(files_in(disc, below, (levels - 1) as nat) <= files_in(disc, below, levels));
        } else {
            assert(files_below(disc, places.last(), levels) == 0);
        }
        assert(files_below(disc, places.last(), levels) <= files_below(
            disc,
            places.last(),
            levels + 1,
        ));
    }
}

/// An extraction that comes to its end has counted every file of the tree once, as written, as too
/// large or as unreadable, whichever of the files can be read. The files of the tree are counted to
/// any depth that is at least the number of directories visited.
pub proof fn law_every_file_is_counted_once(
    disc: spec_fn(Seq<char>) -> Option<Seq<DiscEntry>>,
    readable: spec_fn(PlaceView) -> bool,
    work: Seq<PlaceView>,
    n: nat,
    counts: Counts,
    levels: nat,
)
    requires
        is_finished(disc, work, n),
        levels >= n,
    ensures
        counts_after(disc, readable, work, n, counts).total() == counts.total() + files_in(
            disc,
            work,
            levels,
        ),
    decreases n,
{
    if work.len() > 0 {
        let top = work.last();
        let front = work.drop_last();
        let entries = entries_at(disc, top);
        let below = super::directories(top, entries);
        let files = super::wanted_files(top, entries);
        let after = work_after(disc, work);
        let next = counts_after_directory(counts, top, entries, readable);
        let less = (levels - 1) as nat;
        lemma_files_are_wanted_or_too_large(top, entries);
        lemma_readable_are_some(files, readable);
        law_every_file_is_counted_once(disc, readable, after, (n - 1) as nat, next, levels);
        law_every_file_is_counted_once(disc, readable, after, (n - 1) as nat, next, less);
        lemma_files_in_both(disc, front, below, levels);
        lemma_files_in_both(disc, front, below, less);
        lemma_deeper_is_no_less(disc, front, less);
        lemma_deeper_is_no_less(disc, below, less);
        assert(next.total() == counts.total() + file_count(entries));
        assert(files_below(disc, top, levels) == file_count(entries) + files_in(disc, below, less));
    }
}

/// An extraction from its start to its end counts as many files as there are at or below the root.
pub proof fn law_extraction_counts_the_files_of_the_tree(
    disc: spec_fn(Seq<char>) -> Option<Seq<DiscEntry>>,
    readable: spec_fn(PlaceView) -> bool,
    start: Extraction,
    n: nat,
)
    requires
        super::place_views(start.work@) == seq![super::root_place()],
        counts_of(start).total() == 0,
        is_finished(disc, super::place_views(start.work@), n),
    ensures
        ({
            let end = counts_after(
                disc,
                readable,
                super::place_views(start.work@),
                n,
                counts_of(start),
            );
            end.written + end.skipped_size + end.skipped_read == files_below(
                disc,
                super::root_place(),
                n,
            )
        }),
{
    let work = super::place_views(start.work@);
    law_every_file_is_counted_once(disc, readable, work, n, counts_of(start), n);
    assert(work.drop_last() =~= Seq::<PlaceView>::empty());
    assert(files_in(disc, work.drop_last(), n) == 0);
}

} // verus!
