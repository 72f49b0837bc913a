//! What an extraction makes of the entries of a directory.

use vstd::prelude::*;

use super::asks_for_help;
use super::directories;
use super::root_place;
use super::summary_of;
use super::too_large_count;
use super::wanted_files;
use super::DiscEntry;
use super::Place;
use super::PlaceView;
use crate::text::decimal;
use crate::text::occurs;
use crate::text_laws::law_parts_occur;

verus! {

/// The files handed out for a directory are its entries that are files of at most 64 MiB, in their
/// order, each under its own name: on the disc behind the path of the directory and a slash, and
/// below the output directory behind the directory's names.
pub proof fn law_files_are_the_small_entries(place: PlaceView, entries: Seq<DiscEntry>)
    ensures
        wanted_files(place, entries) == entries.filter(
            |entry: DiscEntry| !entry.is_dir && entry.size <= 64 * 1024 * 1024,
        ).map_values(
            |entry: DiscEntry|
                PlaceView {
                    disc_path: place.disc_path + "/"@ + entry.name@,
                    names: place.names.push(entry.name@),
                },
        ),
    decreases entries.len(),
{
    reveal(Seq::filter);
    let small = |entry: DiscEntry| !entry.is_dir && entry.size <= 64 * 1024 * 1024;
    let below = |entry: DiscEntry|
        PlaceView {
            disc_path: place.disc_path + "/"@ + entry.name@,
            names: place.names.push(entry.name@),
        };
    if entries.len() > 0 {
        law_files_are_the_small_entries(place, entries.drop_last());
        let kept = entries.drop_last().filter(small);
        assert(kept.push(entries.last()).map_values(below) =~= kept.map_values(below).push(
            below(entries.last()),
        ));
    }
    assert(wanted_files(place, entries) =~= entries.filter(small).map_values(below));
}

/// The directories that a visit adds are the entries that are directories, in their order, each
/// under its own name.
pub proof fn law_directories_are_the_entries_that_are(place: PlaceView, entries: Seq<DiscEntry>)
    ensures
        directories(place, entries) == entries.filter(
            |entry: DiscEntry| entry.is_dir,
        ).map_values(
            |entry: DiscEntry|
                PlaceView {
                    disc_path: place.disc_path + "/"@ + entry.name@,
                    names: place.names.push(entry.name@),
                },
        ),
    decreases entries.len(),
{
    reveal(Seq::filter);
    let is_dir = |entry: DiscEntry| entry.is_dir;
    let below = |entry: DiscEntry|
        PlaceView {
            disc_path: place.disc_path + "/"@ + entry.name@,
            names: place.names.push(entry.name@),
        };
    if entries.len() > 0 {
        law_directories_are_the_entries_that_are(place, entries.drop_last());
        let kept = entries.drop_last().filter(is_dir);
        assert(kept.push(entries.last()).map_values(below) =~= kept.map_values(below).push(
            below(entries.last()),
        ));
    }
    assert(directories(place, entries) =~= entries.filter(is_dir).map_values(below));
}

/// As many files are counted as too large as there are entries that are files of more than 64 MiB.
pub proof fn law_large_files_are_counted(entries: Seq<DiscEntry>)
    ensures
        too_large_count(entries) == entries.filter(
            |entry: DiscEntry| !entry.is_dir && entry.size > 64 * 1024 * 1024,
        ).len(),
    decreases entries.len(),
{
    reveal(Seq::filter);
    if entries.len() > 0 {
        law_large_files_are_counted(entries.drop_last());
    }
}

/// A place is among the files handed out exactly if it is the place of some entry that is a file of
/// at most 64 MiB, and among the directories exactly if it is the place of one that is a directory.
pub proof fn law_each_entry_has_its_own_place(
    place: PlaceView,
    entries: Seq<DiscEntry>,
    found: PlaceView,
)
    ensures
        wanted_files(place, entries).contains(found) <==> exists|i: int|
            0 <= i < entries.len() && !(#[trigger] entries[i]).is_dir && entries[i].size <= 64 * 1024
                * 1024 && found.names == place.names.push(entries[i].name@) && found.disc_path
                == place.disc_path + "/"@ + entries[i].name@,
        directories(place, entries).contains(found) <==> exists|i: int|
            0 <= i < entries.len() && (#[trigger] entries[i]).is_dir && found.names
                == place.names.push(entries[i].name@) && found.disc_path == place.disc_path + "/"@
                + entries[i].name@,
    decreases entries.len(),
{
    let files = wanted_files(place, entries);
    let dirs = directories(place, entries);
    if entries.len() == 0 {
        assert(!files.contains(found));
        assert(!dirs.contains(found));
    } else {
        let front = entries.drop_last();
        let last = entries.len() - 1;
        law_each_entry_has_its_own_place(place, front, found);
        let before = wanted_files(place, front);
        let above = directories(place, front);
        assert(forall|i: int| 0 <= i < front.len() ==> front[i] == #[trigger] entries[i]);
        if files.contains(found) {
            let k = choose|k: int| 0 <= k < files.len() && files[k] == found;
            if k < before.len() {
                assert(before.contains(before[k]));
                let i = choose|i: int|
                    0 <= i < front.len() && !(#[trigger] front[i]).is_dir && front[i].size <= 64
                        * 1024 * 1024 && found.names == place.names.push(front[i].name@)
                        && found.disc_path == place.disc_path + "/"@ + front[i].name@;
                assert(entries[i] == front[i]);
            } else {
                assert(entries[last] == entries.last());
            }
        }
        if dirs.contains(found) {
            let k = choose|k: int| 0 <= k < dirs.len() && dirs[k] == found;
            if k < above.len() {
                assert(above.contains(above[k]));
                let i = choose|i: int|
                    0 <= i < front.len() && (#[trigger] front[i]).is_dir && found.names
                        == place.names.push(front[i].name@) && found.disc_path == place.disc_path
                        + "/"@ + front[i].name@;
                assert(entries[i] == front[i]);
            } else {
                assert(entries[last] == entries.last());
            }
        }
        assert forall|i: int|
            0 <= i < entries.len() && !(#[trigger] entries[i]).is_dir && entries[i].size <= 64 * 1024
                * 1024 && found.names == place.names.push(entries[i].name@) && found.disc_path
                == place.disc_path + "/"@ + entries[i].name@ implies files.contains(found) by {
            if i < last {
                assert(front[i] == entries[i]);
                assert(before.contains(found));
                let k = choose|k: int| 0 <= k < before.len() && before[k] == found;
                assert(files[k] == found);
            } else {
                assert(files[before.len() as int] == found);
            }
        }
        assert forall|i: int|
            0 <= i < entries.len() && (#[trigger] entries[i]).is_dir && found.names
                == place.names.push(entries[i].name@) && found.disc_path == place.disc_path + "/"@
                + entries[i].name@ implies dirs.contains(found) by {
            if i < last {
                assert(front[i] == entries[i]);
                assert(above.contains(found));
                let k = choose|k: int| 0 <= k < above.len() && above[k] == found;
                assert(dirs[k] == found);
            } else {
                assert(dirs[above.len() as int] == found);
            }
        }
    }
}

/// An extraction starts at `/BDMV`, and what lies there goes below a directory `BDMV`.
pub proof fn law_extraction_starts_at_the_root()
    ensures
        root_place().disc_path == "/BDMV"@,
        root_place().names == seq!["BDMV"@],
{
}

/// A command line asks for help exactly if it has fewer than two arguments or the first one is
/// `--help` or `-h`.
pub proof fn law_help_is_asked_for(args: Seq<Seq<char>>)
    ensures
        asks_for_help(args) <==> args.len() < 2 || args[0] == "--help"@ || args[0] == "-h"@,
{
}

/// The report on an extraction says how many files were extracted and how many were skipped for
/// each reason, and nothing else.
pub proof fn law_summary_says_each_count(written: nat, skipped_size: nat, skipped_read: nat)
    ensures
        occurs(
            summary_of(written, skipped_size, skipped_read),
            "extracted "@ + decimal(written) + " files"@,
        ),
        occurs(
            summary_of(written, skipped_size, skipped_read),
            "skipped "@ + decimal(skipped_size) + " large"@,
        ),
        occurs(
            summary_of(written, skipped_size, skipped_read),
            "skipped "@ + decimal(skipped_read) + " read-errors"@,
        ),
        summary_of(written, skipped_size, skipped_read).len() == decimal(written).len() + decimal(
            skipped_size,
        ).len() + decimal(skipped_read).len() + 83,
{
    let text = summary_of(written, skipped_size, skipped_read);
    reveal_strlit("extracted ");
    reveal_strlit(" files, skipped ");
    reveal_strlit(" files");
    reveal_strlit("skipped ");
    reveal_strlit(" large (m2ts), skipped ");
    reveal_strlit(" large");
    reveal_strlit(" read-errors (past capture window)");
    reveal_strlit(" read-errors");
    let w = decimal(written);
    let l = decimal(skipped_size);
    let r = decimal(skipped_read);
    let extracted = "extracted "@;
    let files = " files, skipped "@;
    let large = " large (m2ts), skipped "@;
    let errors = " read-errors (past capture window)"@;
    assert(files.take(6) =~= " files"@);
    assert(files.skip(8) =~= "skipped "@);
    assert(large.take(6) =~= " large"@);
    assert(large.skip(15) =~= "skipped "@);
    assert(errors.take(12) =~= " read-errors"@);
    assert(text =~= Seq::<char>::empty() + (extracted + w + files.take(6)) + (files.skip(6) + l
        + large + r + errors));
    law_parts_occur(
        Seq::empty(),
        extracted + w + files.take(6),
        files.skip(6) + l + large + r + errors,
    );
    assert(text =~= (extracted + w + files.take(8)) + (files.skip(8) + l + large.take(6)) + (
    large.skip(6) + r + errors));
    law_parts_occur(
        extracted + w + files.take(8),
        files.skip(8) + l + large.take(6),
        large.skip(6) + r + errors,
    );
    assert(text =~= (extracted + w + files + l + large.take(15)) + (large.skip(15) + r
        + errors.take(12)) + errors.skip(12));
    law_parts_occur(
        extracted + w + files + l + large.take(15),
        large.skip(15) + r + errors.take(12),
        errors.skip(12),
    );
}

/// A place shows its path on the disc and its names.
pub proof fn law_places_show_path_and_names(place: Place, i: int)
    requires
        0 <= i < place.names@.len(),
    ensures
        place@.disc_path == place.disc_path@,
        place@.names.len() == place.names@.len(),
        place@.names[i] == place.names@[i]@,
{
}

} // verus!
