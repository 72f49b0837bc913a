//! What a walk of a directory makes of its items, and how captures and snapshots are named.

use vstd::prelude::*;
use vstd::utf8::encode_utf8;
use vstd::utf8::is_ascii_chars_encode_utf8;

use crate::labels_corpus_check::captures::basename_of;
use crate::labels_corpus_check::captures::captures_among;
use crate::labels_corpus_check::captures::captures_in;
use crate::labels_corpus_check::captures::filter_view;
use crate::labels_corpus_check::captures::holds_capture;
use crate::labels_corpus_check::captures::is_capture_name;
use crate::labels_corpus_check::captures::lemma_error_stays;
use crate::labels_corpus_check::captures::listed;
use crate::labels_corpus_check::captures::listing_view;
use crate::labels_corpus_check::captures::met_among;
use crate::labels_corpus_check::captures::met_in;
use crate::labels_corpus_check::captures::passes;
use crate::labels_corpus_check::captures::snapshot_name_of;
use crate::labels_corpus_check::captures::some_item_holds;
use crate::labels_corpus_check::captures::CapturePath;
use crate::labels_corpus_check::captures::DirItem;
use crate::labels_corpus_check::captures::DirListing;
use crate::labels_corpus_check::captures_laws::law_list_is_strictly_sorted;
use crate::labels_corpus_check::captures_laws::names_are_distinct;
use crate::order_laws::law_paths_are_ordered_by_their_first_difference;
use crate::order_laws::name_before;
use crate::order_laws::stands_before;
use crate::text::occurs;

verus! {

/// A file is a disc capture exactly if its name is something, and behind it `.bin` or `.iso`.
pub proof fn law_captures_end_in_bin_or_iso(name: Seq<u8>)
    ensures
        is_capture_name(name) <==> name.len() > 4 && (name.skip(name.len() - 4) == encode_utf8(
            ".bin"@,
        ) || name.skip(name.len() - 4) == encode_utf8(".iso"@)),
{
    lemma_endings();
    if name.len() > 4 {
        let end = name.skip(name.len() - 4);
        let bin = encode_utf8(".bin"@);
        let iso = encode_utf8(".iso"@);
        assert(end[0] == name[name.len() - 4] && end[1] == name[name.len() - 3] && end[2]
            == name[name.len() - 2] && end[3] == name[name.len() - 1]);
        if is_capture_name(name) {
            assert(end =~= bin || end =~= iso);
        }
    }
}

proof fn lemma_endings()
    ensures
        encode_utf8(".bin"@) == seq![0x2eu8, 0x62u8, 0x69u8, 0x6eu8],
        encode_utf8(".iso"@) == seq![0x2eu8, 0x69u8, 0x73u8, 0x6fu8],
{
    reveal_strlit(".bin");
    reveal_strlit(".iso");
    is_ascii_chars_encode_utf8(".bin"@);
    is_ascii_chars_encode_utf8(".iso"@);
    assert(encode_utf8(".bin"@) =~= seq![0x2eu8, 0x62u8, 0x69u8, 0x6eu8]);
    assert(encode_utf8(".iso"@) =~= seq![0x2eu8, 0x69u8, 0x73u8, 0x6fu8]);
}

/// A capture is known by its name without the ending, and its snapshot has that name and the ending
/// of snapshots.
pub proof fn law_snapshots_are_named_after_captures(stem: Seq<u8>)
    requires
        stem.len() > 0,
    ensures
        basename_of(stem + encode_utf8(".bin"@)) == stem,
        basename_of(stem + encode_utf8(".iso"@)) == stem,
        snapshot_name_of(stem + encode_utf8(".bin"@)) == stem + encode_utf8(".snapshot.json"@),
        snapshot_name_of(stem + encode_utf8(".iso"@)) == stem + encode_utf8(".snapshot.json"@),
{
    lemma_endings();
    assert(basename_of(stem + encode_utf8(".bin"@)) =~= stem);
    assert(basename_of(stem + encode_utf8(".iso"@)) =~= stem);
}

/// A name passes a filter exactly if the text of the filter is part of it, and any name passes where
/// there is no filter.
pub proof fn law_filters_are_parts_of_names(shown: Seq<char>, text: Seq<char>)
    ensures
        passes(shown, Some(text)) <==> occurs(shown, text),
        passes(shown, None),
{
}

/// Whether an item can be walked: it could be read, and so could all below it.
pub open spec fn is_readable(
    item: DirItem,
    above: Seq<Seq<u8>>,
    filter: Option<Seq<char>>,
) -> bool {
    match item {
        DirItem::Failed(_) => false,
        DirItem::Named(named) => named.dir is None || captures_in(
            named.dir->Some_0,
            above.push(named.name@),
            filter,
        ) is Ok,
    }
}

proof fn lemma_all_are_readable(
    items: Seq<DirItem>,
    display: Seq<char>,
    above: Seq<Seq<u8>>,
    filter: Option<Seq<char>>,
)
    ensures
        captures_among(items, display, above, filter) is Ok <==> forall|i: int|
            0 <= i < items.len() ==> is_readable(#[trigger] items[i], above, filter),
    decreases items.len(),
{
    if items.len() > 0 {
        let front = items.drop_last();
        lemma_all_are_readable(front, display, above, filter);
        assert(items.last() == items[items.len() - 1]);
        if captures_among(items, display, above, filter) is Ok {
            assert forall|i: int| 0 <= i < items.len() implies is_readable(
                #[trigger] items[i],
                above,
                filter,
            ) by {
                if i < front.len() {
                    assert(is_readable(front[i], above, filter));
                }
            }
        }
        if forall|i: int| 0 <= i < items.len() ==> is_readable(#[trigger] items[i], above, filter) {
            assert forall|i: int| 0 <= i < front.len() implies is_readable(
                #[trigger] front[i],
                above,
                filter,
            ) by {
                assert(front[i] == items[i]);
            }
            assert(is_readable(items[items.len() - 1], above, filter));
        }
    }
}

/// A directory is walked to the end exactly if it can be read, none of its items is an error, and
/// every directory among them is walked to the end.
pub proof fn law_walk_succeeds_iff_all_is_readable(
    dir: DirListing,
    above: Seq<Seq<u8>>,
    filter: Option<Seq<char>>,
)
    ensures
        captures_in(dir, above, filter) is Ok <==> (dir.contents matches Ok(items) && forall|i: int|
            0 <= i < items@.len() ==> match #[trigger] items@[i] {
                DirItem::Failed(_) => false,
                DirItem::Named(named) => named.dir is None || captures_in(
                    named.dir->Some_0,
                    above.push(named.name@),
                    filter,
                ) is Ok,
            }),
{
    if let Ok(items) = dir.contents {
        lemma_all_are_readable(items@, dir.display@, above, filter);
        assert((forall|i: int|
            0 <= i < items@.len() ==> is_readable(#[trigger] items@[i], above, filter)) <==> (
        forall|i: int|
            0 <= i < items@.len() ==> match #[trigger] items@[i] {
                DirItem::Failed(_) => false,
                DirItem::Named(named) => named.dir is None || captures_in(
                    named.dir->Some_0,
                    above.push(named.name@),
                    filter,
                ) is Ok,
            }));
    }
}

/// A directory that cannot be read gives the error of reading it.
pub proof fn law_unreadable_directories_are_reported(
    dir: DirListing,
    above: Seq<Seq<u8>>,
    filter: Option<Seq<char>>,
)
    requires
        dir.contents is Err,
    ensures
        captures_in(dir, above, filter) == Err::<Seq<Seq<Seq<u8>>>, Seq<char>>(
            "read "@ + dir.display@ + ": "@ + dir.contents->Err_0@,
        ),
{
}

/// The first item of a directory that is an error, or holds one, decides: its error is given, and
/// what was found before it is kept.
pub proof fn law_first_error_is_reported(
    dir: DirListing,
    above: Seq<Seq<u8>>,
    filter: Option<Seq<char>>,
    i: int,
)
    requires
        dir.contents is Ok,
        0 <= i < dir.contents->Ok_0@.len(),
        forall|j: int|
            0 <= j < i ==> is_readable(#[trigger] dir.contents->Ok_0@[j], above, filter),
        !is_readable(dir.contents->Ok_0@[i], above, filter),
    ensures
        match dir.contents->Ok_0@[i] {
            DirItem::Failed(error) => captures_in(dir, above, filter) == Err::<
                Seq<Seq<Seq<u8>>>,
                Seq<char>,
            >("entry in "@ + dir.display@ + ": "@ + error@),
            DirItem::Named(named) => captures_in(dir, above, filter) == captures_in(
                named.dir->Some_0,
                above.push(named.name@),
                filter,
            ),
        },
{
    let items = dir.contents->Ok_0@;
    let front = items.take(i);
    let upto = items.take(i + 1);
    assert forall|j: int| 0 <= j < front.len() implies is_readable(
        #[trigger] front[j],
        above,
        filter,
    ) by {
        assert(front[j] == items[j]);
    }
    lemma_all_are_readable(front, dir.display@, above, filter);
    assert(upto.drop_last() =~= front);
    assert(upto.last() == items[i]);
    lemma_error_stays(items, i + 1, dir.display@, above, filter);
}

/// Whether an item is a capture at a path, or a directory that holds it.
pub open spec fn leads_to(item: DirItem, path: Seq<Seq<u8>>, filter: Option<Seq<char>>) -> bool {
    match item {
        DirItem::Failed(_) => false,
        DirItem::Named(named) => path.len() > 0 && named.name@ == path[0] && match named.dir {
            Some(dir) => path.len() > 1 && holds_capture(dir, path.skip(1), filter),
            None => path.len() == 1 && is_capture_name(path[0]) && passes(named.shown@, filter),
        },
    }
}

/// A directory holds a capture at a path exactly if one of its items has the first name of the path
/// and is the capture, where that is the whole path, or a directory that holds it at the rest.
pub proof fn law_captures_are_held_by_items(
    dir: DirListing,
    path: Seq<Seq<u8>>,
    filter: Option<Seq<char>>,
)
    ensures
        holds_capture(dir, path, filter) <==> (dir.contents matches Ok(items) && exists|i: int|
            0 <= i < items@.len() && leads_to(#[trigger] items@[i], path, filter)),
{
    if let Ok(items) = dir.contents {
        lemma_item_leads_to(items@, path, filter);
    }
}

proof fn lemma_item_leads_to(
    items: Seq<DirItem>,
    path: Seq<Seq<u8>>,
    filter: Option<Seq<char>>,
)
    ensures
        some_item_holds(items, path, filter) <==> exists|i: int|
            0 <= i < items.len() && leads_to(#[trigger] items[i], path, filter),
    decreases items.len(),
{
    if items.len() > 0 {
        let front = items.drop_last();
        let last = items.len() - 1;
        lemma_item_leads_to(front, path, filter);
        if let DirItem::Named(named) = items.last() {
            assert(path =~= seq![named.name@] <==> path.len() == 1 && path[0] == named.name@);
        }
        assert(some_item_holds(items, path, filter) <==> some_item_holds(front, path, filter)
            || leads_to(items[last], path, filter));
        if some_item_holds(front, path, filter) {
            let i = choose|i: int|
                0 <= i < front.len() && leads_to(#[trigger] front[i], path, filter);
            assert(leads_to(items[i], path, filter));
        }
        if exists|i: int| 0 <= i < items.len() && leads_to(#[trigger] items[i], path, filter) {
            let i = choose|i: int|
                0 <= i < items.len() && leads_to(#[trigger] items[i], path, filter);
            if i < last {
                assert(leads_to(front[i], path, filter));
            }
        }
    }
}

/// The captures among items are met in the order of the items.
pub proof fn law_items_are_walked_in_order(
    first: Seq<DirItem>,
    second: Seq<DirItem>,
    display: Seq<char>,
    above: Seq<Seq<u8>>,
    filter: Option<Seq<char>>,
)
    requires
        captures_among(first + second, display, above, filter) is Ok,
    ensures
        captures_among(first, display, above, filter) is Ok,
        captures_among(second, display, above, filter) is Ok,
        captures_among(first + second, display, above, filter)->Ok_0 == captures_among(
            first,
            display,
            above,
            filter,
        )->Ok_0 + captures_among(second, display, above, filter)->Ok_0,
    decreases second.len(),
{
    let all = first + second;
    let found = captures_among(all, display, above, filter)->Ok_0;
    if second.len() == 0 {
        assert(all =~= first);
        assert(found + Seq::<Seq<Seq<u8>>>::empty() =~= found);
    } else {
        let front = second.drop_last();
        assert(all.drop_last() =~= first + front);
        assert(all.last() == second.last());
        law_items_are_walked_in_order(first, front, display, above, filter);
        let x = captures_among(first, display, above, filter)->Ok_0;
        let y = captures_among(front, display, above, filter)->Ok_0;
        let z = captures_among(second, display, above, filter)->Ok_0;
        assert(found =~= x + z);
    }
}

/// What is met on a walk that comes to its end are all the captures that it finds.
pub proof fn law_complete_walks_meet_all(
    dir: DirListing,
    above: Seq<Seq<u8>>,
    filter: Option<Seq<char>>,
)
    requires
        captures_in(dir, above, filter) is Ok,
    ensures
        met_in(dir, above, filter) == captures_in(dir, above, filter)->Ok_0,
    decreases dir, 0nat,
{
    let items = dir.contents->Ok_0@;
    assert(decreases_to!(dir => dir.contents->Ok_0));
    lemma_complete_items_meet_all(items, dir.display@, above, filter);
}

proof fn lemma_complete_items_meet_all(
    items: Seq<DirItem>,
    display: Seq<char>,
    above: Seq<Seq<u8>>,
    filter: Option<Seq<char>>,
)
    requires
        captures_among(items, display, above, filter) is Ok,
    ensures
        met_among(items, display, above, filter) == captures_among(
            items,
            display,
            above,
            filter,
        )->Ok_0,
    decreases items, items.len(),
{
    if items.len() > 0 {
        lemma_complete_items_meet_all(items.drop_last(), display, above, filter);
        let found = captures_among(items.drop_last(), display, above, filter)->Ok_0;
        assert(found + Seq::<Seq<Seq<u8>>>::empty() =~= found);
        match items.last() {
            DirItem::Failed(_) => {},
            DirItem::Named(item) => match item.dir {
                Some(dir) => {
                    assert(decreases_to!(items => items[items.len() - 1]));
                    law_complete_walks_meet_all(dir, above.push(item.name@), filter);
                },
                None => {
                    let entry = above.push(item.name@);
                    assert(found + seq![entry] =~= found.push(entry));
                },
            },
        }
    }
}

/// The list of captures is that of the walk of the corpus directory: an error of the walk is given
/// as it is, and so is the error where the path is not that of a directory.
pub proof fn law_list_gives_the_errors_of_the_walk(
    display: Seq<char>,
    dir: DirListing,
    filter: Option<Seq<char>>,
)
    ensures
        listed(display, None, filter) == Err::<Seq<Seq<Seq<u8>>>, Seq<char>>(
            "not a directory: "@ + display,
        ),
        captures_in(dir, Seq::empty(), filter) is Err ==> listed(display, Some(dir), filter)
            == captures_in(dir, Seq::empty(), filter),
        captures_in(dir, Seq::empty(), filter) is Ok ==> listed(display, Some(dir), filter) is Ok,
{
}

/// Where the names within each directory are distinct, each path of the list stands before those
/// that follow it: by the first name in which they differ, and there by the first byte.
pub proof fn law_list_is_in_the_order_of_paths(
    display: Seq<char>,
    dir: DirListing,
    filter: Option<Seq<char>>,
    i: int,
    j: int,
)
    requires
        listed(display, Some(dir), filter) is Ok,
        names_are_distinct(dir),
        0 <= i < j < listed(display, Some(dir), filter)->Ok_0.len(),
    ensures
        stands_before(
            listed(display, Some(dir), filter)->Ok_0[i],
            listed(display, Some(dir), filter)->Ok_0[j],
            |a: Seq<u8>, b: Seq<u8>| name_before(a, b),
        ),
{
    law_list_is_strictly_sorted(display, dir, filter);
    law_paths_are_ordered_by_their_first_difference(
        listed(display, Some(dir), filter)->Ok_0[i],
        listed(display, Some(dir), filter)->Ok_0[j],
    );
}

/// A filter that is given counts with its text, and one that is not counts as none.
pub proof fn law_filters_count_as_given(text: &str, listing: &DirListing)
    ensures
        filter_view(Some(text)) == Some(text@),
        filter_view(None) is None,
        listing_view(Some(listing)) == Some(*listing),
        listing_view(None) is None,
{
}

/// The path of a capture is made of its names, byte by byte.
pub proof fn law_paths_show_their_names(path: CapturePath, i: int)
    requires
        0 <= i < path.names@.len(),
    ensures
        path@.len() == path.names@.len(),
        path@[i] == path.names@[i]@,
{
}

} // verus!
