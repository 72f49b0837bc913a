//! What holds of the list of captures.

use vstd::prelude::*;
use vstd::seq_lib::lemma_seq_concat_contains_all_elements;

use crate::labels_corpus_check::captures::byte_codes;
use crate::labels_corpus_check::captures::captures_among;
use crate::labels_corpus_check::captures::captures_in;
use crate::labels_corpus_check::captures::holds_capture;
use crate::labels_corpus_check::captures::is_capture_name;
use crate::labels_corpus_check::captures::is_held_below;
use crate::labels_corpus_check::captures::met_among;
use crate::labels_corpus_check::captures::met_in;
use crate::labels_corpus_check::captures::some_item_holds;
use crate::labels_corpus_check::captures::listed;
use crate::labels_corpus_check::captures::passes;
use crate::labels_corpus_check::captures::path_order;
use crate::labels_corpus_check::captures::path_orders;
use crate::labels_corpus_check::captures::sorted_paths;
use crate::labels_corpus_check::captures::DirItem;
use crate::labels_corpus_check::captures::DirListing;
use crate::order::in_order;
use crate::order::law_sort_is_stable;
use crate::order::lemma_lists_equal;
use crate::order::lists_order;
use crate::order::sorted_positions;
use crate::order::Rank;

verus! {

/// Every path met below a directory leads through it.
proof fn lemma_paths_lead_through(
    dir: DirListing,
    above: Seq<Seq<u8>>,
    filter: Option<Seq<char>>,
)
    requires
        captures_in(dir, above, filter) is Ok,
    ensures
        forall|path: Seq<Seq<u8>>| #[trigger]
            captures_in(dir, above, filter)->Ok_0.contains(path) ==> path.len() > above.len()
                && path.take(above.len() as int) == above,
    decreases dir, 0nat,
{
    match dir.contents {
        Ok(items) => {
            lemma_item_paths_lead_through(items@, dir.display@, above, filter);
        },
        Err(_) => {},
    }
}

proof fn lemma_item_paths_lead_through(
    items: Seq<DirItem>,
    display: Seq<char>,
    above: Seq<Seq<u8>>,
    filter: Option<Seq<char>>,
)
    requires
        captures_among(items, display, above, filter) is Ok,
    ensures
        forall|path: Seq<Seq<u8>>| #[trigger]
            captures_among(items, display, above, filter)->Ok_0.contains(path) ==> path.len()
                > above.len() && path.take(above.len() as int) == above,
    decreases items, items.len(),
{
    if items.len() > 0 {
        lemma_item_paths_lead_through(items.drop_last(), display, above, filter);
        let found = captures_among(items.drop_last(), display, above, filter)->Ok_0;
        let all = captures_among(items, display, above, filter)->Ok_0;
        match items.last() {
            DirItem::Failed(_) => {},
            DirItem::Named(item) => match item.dir {
                Some(dir) => {
                    let inner = above.push(item.name@);
                    assert(decreases_to!(items => items[items.len() - 1]));
                    lemma_paths_lead_through(dir, inner, filter);
                    let more = captures_in(dir, inner, filter)->Ok_0;
                    assert forall|path: Seq<Seq<u8>>| #[trigger]
                        all.contains(path) implies path.len() > above.len() && path.take(
                        above.len() as int,
                    ) == above by {
                        let i = choose|i: int| 0 <= i < all.len() && all[i] == path;
                        if i < found.len() {
                            assert(found.contains(found[i]));
                        } else {
                            assert(more.contains(more[i - found.len()]));
                            assert(path.take(inner.len() as int) == inner);
                            assert(path.take(above.len() as int) =~= inner.take(above.len() as int));
                            assert(inner.take(above.len() as int) =~= above);
                        }
                    }
                },
                None => {
                    assert forall|path: Seq<Seq<u8>>| #[trigger]
                        all.contains(path) implies path.len() > above.len() && path.take(
                        above.len() as int,
                    ) == above by {
                        let i = choose|i: int| 0 <= i < all.len() && all[i] == path;
                        if i < found.len() {
                            assert(found.contains(found[i]));
                        } else {
                            assert(path == above.push(item.name@));
                            assert(path.take(above.len() as int) =~= above);
                        }
                    }
                },
            },
        }
    }
}

/// The walk of a directory meets exactly the captures that it holds.
pub proof fn law_walk_meets_what_is_held(
    dir: DirListing,
    above: Seq<Seq<u8>>,
    filter: Option<Seq<char>>,
    path: Seq<Seq<u8>>,
)
    requires
        captures_in(dir, above, filter) is Ok,
    ensures
        captures_in(dir, above, filter)->Ok_0.contains(above + path) <==> holds_capture(
            dir,
            path,
            filter,
        ),
    decreases dir, 0nat,
{
    match dir.contents {
        Ok(items) => {
            lemma_items_meet_what_is_held(items@, dir.display@, above, filter, path);
        },
        Err(_) => {},
    }
}

proof fn lemma_items_meet_what_is_held(
    items: Seq<DirItem>,
    display: Seq<char>,
    above: Seq<Seq<u8>>,
    filter: Option<Seq<char>>,
    path: Seq<Seq<u8>>,
)
    requires
        captures_among(items, display, above, filter) is Ok,
    ensures
        captures_among(items, display, above, filter)->Ok_0.contains(above + path)
            <==> some_item_holds(items, path, filter),
    decreases items, items.len(),
{
    let full = above + path;
    if items.len() == 0 {
        assert(!captures_among(items, display, above, filter)->Ok_0.contains(full));
    } else {
        lemma_items_meet_what_is_held(items.drop_last(), display, above, filter, path);
        let found = captures_among(items.drop_last(), display, above, filter)->Ok_0;
        let all = captures_among(items, display, above, filter)->Ok_0;
        match items.last() {
            DirItem::Failed(_) => {},
            DirItem::Named(item) => match item.dir {
                Some(dir) => {
                    let inner = above.push(item.name@);
                    assert(decreases_to!(items => items[items.len() - 1]));
                    lemma_paths_lead_through(dir, inner, filter);
                    let more = captures_in(dir, inner, filter)->Ok_0;
                    lemma_seq_concat_contains_all_elements(found, more, full);
                    if path.len() > 0 && path[0] == item.name@ {
                        assert(full =~= inner + path.skip(1));
                        law_walk_meets_what_is_held(dir, inner, filter, path.skip(1));
                        if path.len() == 1 && more.contains(full) {
                            assert(full.len() == inner.len());
                        }
                    } else if more.contains(full) {
                        assert(full.take(inner.len() as int) == inner);
                        assert(full[above.len() as int] == full.take(inner.len() as int)[above.len() as int]);
                        assert(inner[above.len() as int] == item.name@);
                    }
                },
                None => {
                    let entry = above.push(item.name@);
                    assert(full == entry <==> path =~= seq![item.name@]) by {
                        if full == entry {
                            assert(path.len() == 1);
                            assert(full[above.len() as int] == path[0]);
                        }
                        if path =~= seq![item.name@] {
                            assert(full =~= entry);
                        }
                    }
                    if is_capture_name(item.name@) && passes(item.shown@, filter) {
                        assert(found.push(entry) =~= found + seq![entry]);
                        lemma_seq_concat_contains_all_elements(found, seq![entry], full);
                        assert(seq![entry].contains(full) <==> entry == full) by {
                            assert(seq![entry][0] == entry);
                        }
                    }
                },
            },
        }
    }
}

proof fn lemma_sorted_paths(paths: Seq<Seq<Seq<u8>>>)
    ensures
        sorted_paths(paths).len() == paths.len(),
        forall|i: int, j: int|
            0 <= i < j < paths.len() ==> lists_order(
                path_order(#[trigger] sorted_paths(paths)[i]),
                path_order(#[trigger] sorted_paths(paths)[j]),
            ) != Rank::Greater,
        forall|path: Seq<Seq<u8>>| #[trigger]
            sorted_paths(paths).contains(path) <==> paths.contains(path),
{
    let keys = path_orders(paths);
    let order = sorted_positions(keys, paths.len());
    let sorted = sorted_paths(paths);
    law_sort_is_stable(keys, paths.len());
    assert forall|i: int, j: int| 0 <= i < j < paths.len() implies lists_order(
        path_order(#[trigger] sorted[i]),
        path_order(#[trigger] sorted[j]),
    ) != Rank::Greater by {
        assert(in_order(keys, order[i], order[j]));
    }
    assert forall|path: Seq<Seq<u8>>| #[trigger]
        sorted.contains(path) <==> paths.contains(path) by {
        if sorted.contains(path) {
            let i = choose|i: int| 0 <= i < sorted.len() && sorted[i] == path;
            assert(paths[order[i]] == path);
        }
        if paths.contains(path) {
            let p = choose|p: int| 0 <= p < paths.len() && paths[p] == path;
            assert(order.contains(p));
            let i = choose|i: int| 0 <= i < order.len() && order[i] == p;
            assert(sorted[i] == path);
        }
    }
}

/// The list of captures holds exactly the captures below the corpus directory that pass the
/// filter, in ascending order of their paths.
pub proof fn law_list_is_complete_and_sorted(
    display: Seq<char>,
    dir: DirListing,
    filter: Option<Seq<char>>,
)
    requires
        listed(display, Some(dir), filter) is Ok,
    ensures
        forall|path: Seq<Seq<u8>>| #[trigger]
            listed(display, Some(dir), filter)->Ok_0.contains(path) <==> holds_capture(
                dir,
                path,
                filter,
            ),
        forall|i: int, j: int|
            0 <= i < j < listed(display, Some(dir), filter)->Ok_0.len() ==> lists_order(
                path_order(#[trigger] listed(display, Some(dir), filter)->Ok_0[i]),
                path_order(#[trigger] listed(display, Some(dir), filter)->Ok_0[j]),
            ) != Rank::Greater,
{
    let top = Seq::<Seq<u8>>::empty();
    let met = captures_in(dir, top, filter)->Ok_0;
    lemma_sorted_paths(met);
    assert forall|path: Seq<Seq<u8>>| #[trigger]
        listed(display, Some(dir), filter)->Ok_0.contains(path) <==> holds_capture(
            dir,
            path,
            filter,
        ) by {
        law_walk_meets_what_is_held(dir, top, filter, path);
        assert(top + path =~= path);
        assert(sorted_paths(met).contains(path) <==> met.contains(path));
    }
}

/// Whatever a directory holds as a capture has the name of one, and so has every path that is
/// listed.
pub proof fn law_what_is_held_is_named_like_a_capture(
    dir: DirListing,
    path: Seq<Seq<u8>>,
    filter: Option<Seq<char>>,
)
    requires
        holds_capture(dir, path, filter),
    ensures
        path.len() > 0,
        is_capture_name(path.last()),
    decreases dir, 0nat,
{
    let items = dir.contents->Ok_0@;
    assert(decreases_to!(dir => dir.contents->Ok_0));
    lemma_item_is_named_like_a_capture(items, path, filter);
}

proof fn lemma_item_is_named_like_a_capture(
    items: Seq<DirItem>,
    path: Seq<Seq<u8>>,
    filter: Option<Seq<char>>,
)
    requires
        some_item_holds(items, path, filter),
    ensures
        path.len() > 0,
        is_capture_name(path.last()),
    decreases items, items.len(),
{
    if some_item_holds(items.drop_last(), path, filter) {
        lemma_item_is_named_like_a_capture(items.drop_last(), path, filter);
    } else {
        match items.last() {
            DirItem::Failed(_) => {},
            DirItem::Named(item) => match item.dir {
                Some(dir) => {
                    law_what_is_held_is_named_like_a_capture(dir, path.skip(1), filter);
                    assert(path.skip(1).last() == path.last());
                },
                None => {},
            },
        }
    }
}

/// Whatever is met on a walk, up to an error or to the end, is held below the directory: its path
/// leads through the directory, and its name is that of a capture and passes the filter.
pub proof fn law_met_paths_are_held(
    dir: DirListing,
    above: Seq<Seq<u8>>,
    filter: Option<Seq<char>>,
)
    ensures
        forall|path: Seq<Seq<u8>>| #[trigger]
            met_in(dir, above, filter).contains(path) ==> is_held_below(dir, above, filter, path),
    decreases dir, 0nat,
{
    match dir.contents {
        Ok(items) => {
            assert(decreases_to!(dir => dir.contents->Ok_0));
            lemma_met_items_are_held(items@, dir.display@, above, filter);
            assert forall|path: Seq<Seq<u8>>| #[trigger]
                met_in(dir, above, filter).contains(path) implies is_held_below(
                dir,
                above,
                filter,
                path,
            ) by {
                assert(met_among(items@, dir.display@, above, filter).contains(path));
            }
        },
        Err(_) => {
            assert forall|path: Seq<Seq<u8>>|
                !(#[trigger] met_in(dir, above, filter).contains(path)) by {}
        },
    }
}

proof fn lemma_met_items_are_held(
    items: Seq<DirItem>,
    display: Seq<char>,
    above: Seq<Seq<u8>>,
    filter: Option<Seq<char>>,
)
    ensures
        forall|path: Seq<Seq<u8>>| #[trigger]
            met_among(items, display, above, filter).contains(path) ==> path.len() > above.len()
                && path.take(above.len() as int) == above && is_capture_name(path.last())
                && some_item_holds(items, path.skip(above.len() as int), filter),
    decreases items, items.len(),
{
    let all = met_among(items, display, above, filter);
    assert forall|path: Seq<Seq<u8>>| #[trigger] all.contains(path) implies path.len()
        > above.len() && path.take(above.len() as int) == above && is_capture_name(path.last())
        && some_item_holds(items, path.skip(above.len() as int), filter) by {
        if items.len() > 0 {
            let front = items.drop_last();
            let before = met_among(front, display, above, filter);
            lemma_met_items_are_held(front, display, above, filter);
            if !before.contains(path) {
                lemma_seq_concat_contains_all_elements(before, all.skip(before.len() as int), path);
                assert(all =~= before + all.skip(before.len() as int));
                let rest = path.skip(above.len() as int);
                match items.last() {
                    DirItem::Failed(_) => {
                        assert(all =~= before);
                    },
                    DirItem::Named(item) => match item.dir {
                        Some(dir) => {
                            let inner = above.push(item.name@);
                            let more = met_in(dir, inner, filter);
                            assert(decreases_to!(items => items[items.len() - 1]));
                            law_met_paths_are_held(dir, inner, filter);
                            lemma_seq_concat_contains_all_elements(before, more, path);
                            assert(more.contains(path));
                            assert(is_held_below(dir, inner, filter, path));
                            assert(path.take(above.len() as int) =~= path.take(
                                inner.len() as int,
                            ).take(above.len() as int));
                            assert(inner.take(above.len() as int) =~= above);
                            assert(path[above.len() as int] == path.take(
                                inner.len() as int,
                            )[above.len() as int]);
                            assert(rest.skip(1) =~= path.skip(inner.len() as int));
                        },
                        None => {
                            let entry = above.push(item.name@);
                            lemma_seq_concat_contains_all_elements(before, seq![entry], path);
                            assert(all =~= before || all =~= before + seq![entry]);
                            assert(path == entry);
                            assert(path.take(above.len() as int) =~= above);
                            assert(rest =~= seq![item.name@]);
                        },
                    },
                }
            }
        }
    }
}

/// Whether no two items of a directory have the same name, and so for every directory below it.
pub open spec fn names_are_distinct(dir: DirListing) -> bool
    decreases dir, 0nat,
{
    match dir.contents {
        Ok(items) => item_names_are_distinct(items@),
        Err(_) => true,
    }
}

/// Whether no two of a directory's items have the same name, and so for every directory among them.
pub open spec fn item_names_are_distinct(items: Seq<DirItem>) -> bool
    decreases items, items.len(),
{
    items.len() > 0 ==> item_names_are_distinct(items.drop_last()) && match items.last() {
        DirItem::Failed(_) => true,
        DirItem::Named(item) => !has_item_named(items.drop_last(), item.name@) && match item.dir {
            Some(dir) => names_are_distinct(dir),
            None => true,
        },
    }
}

/// Whether one of a directory's items has a name.
pub open spec fn has_item_named(items: Seq<DirItem>, name: Seq<u8>) -> bool {
    exists|i: int| 0 <= i < items.len() && is_named(#[trigger] items[i], name)
}

/// Whether an item has a name.
pub open spec fn is_named(item: DirItem, name: Seq<u8>) -> bool {
    item matches DirItem::Named(named) && named.name@ == name
}

proof fn lemma_holder_is_named(
    items: Seq<DirItem>,
    path: Seq<Seq<u8>>,
    filter: Option<Seq<char>>,
)
    requires
        some_item_holds(items, path, filter),
    ensures
        path.len() > 0,
        has_item_named(items, path[0]),
    decreases items.len(),
{
    let front = items.drop_last();
    if some_item_holds(front, path, filter) {
        lemma_holder_is_named(front, path, filter);
        let i = choose|i: int| 0 <= i < front.len() && is_named(#[trigger] front[i], path[0]);
        assert(is_named(items[i], path[0]));
    } else {
        assert(is_named(items[items.len() - 1], path[0]));
    }
}

proof fn lemma_met_once(dir: DirListing, above: Seq<Seq<u8>>, filter: Option<Seq<char>>)
    requires
        names_are_distinct(dir),
        captures_in(dir, above, filter) is Ok,
    ensures
        captures_in(dir, above, filter)->Ok_0.no_duplicates(),
    decreases dir, 0nat,
{
    let items = dir.contents->Ok_0@;
    assert(decreases_to!(dir => dir.contents->Ok_0));
    lemma_items_met_once(items, dir.display@, above, filter);
}

proof fn lemma_items_met_once(
    items: Seq<DirItem>,
    display: Seq<char>,
    above: Seq<Seq<u8>>,
    filter: Option<Seq<char>>,
)
    requires
        item_names_are_distinct(items),
        captures_among(items, display, above, filter) is Ok,
    ensures
        captures_among(items, display, above, filter)->Ok_0.no_duplicates(),
    decreases items, items.len(),
{
    if items.len() > 0 {
        let front = items.drop_last();
        lemma_items_met_once(front, display, above, filter);
        let found = captures_among(front, display, above, filter)->Ok_0;
        let all = captures_among(items, display, above, filter)->Ok_0;
        let k = above.len() as int;
        match items.last() {
            DirItem::Failed(_) => {},
            DirItem::Named(item) => {
                let added = all.skip(found.len() as int);
                match item.dir {
                    Some(dir) => {
                        let inner = above.push(item.name@);
                        assert(decreases_to!(items => items[items.len() - 1]));
                        lemma_met_once(dir, inner, filter);
                        lemma_paths_lead_through(dir, inner, filter);
                        let more = captures_in(dir, inner, filter)->Ok_0;
                        assert(added =~= more);
                        assert forall|j: int| 0 <= j < added.len() implies (#[trigger] added[j])[k]
                            == item.name@ by {
                            assert(more.contains(more[j]));
                            assert(added[j][k] == added[j].take(inner.len() as int)[k]);
                        }
                    },
                    None => {},
                }
                assert forall|j: int| 0 <= j < added.len() implies (#[trigger] added[j])[k]
                    == item.name@ by {}
                lemma_item_paths_lead_through(front, display, above, filter);
                assert forall|i: int| 0 <= i < found.len() implies (#[trigger] found[i])[k]
                    != item.name@ by {
                    let path = found[i];
                    assert(found.contains(path));
                    let rest = path.skip(k);
                    assert(above + rest =~= path) by {
                        assert(path.take(k) + path.skip(k) =~= path);
                    }
                    lemma_items_meet_what_is_held(front, display, above, filter, rest);
                    lemma_holder_is_named(front, rest, filter);
                }
                assert(all =~= found + added);
                assert forall|i: int, j: int| 0 <= i < j < all.len() implies all[i] != all[j] by {
                    if j < found.len() {
                        assert(found[i] != found[j]);
                    } else if i < found.len() {
                        assert(found[i][k] != added[j - found.len()][k]);
                    } else {
                        assert(added[i - found.len()] != added[j - found.len()]);
                    }
                }
            },
        }
    }
}

proof fn lemma_path_order_tells_apart(a: Seq<Seq<u8>>, b: Seq<Seq<u8>>)
    requires
        path_order(a) == path_order(b),
    ensures
        a == b,
{
    assert(a.len() == path_order(a).len());
    assert(b.len() == path_order(b).len());
    assert forall|i: int| 0 <= i < a.len() implies a[i] == b[i] by {
        assert(path_order(a)[i] == byte_codes(a[i]));
        assert(path_order(b)[i] == byte_codes(b[i]));
        assert(a[i].len() == byte_codes(a[i]).len() && b[i].len() == byte_codes(b[i]).len());
        assert forall|j: int| 0 <= j < a[i].len() implies a[i][j] == b[i][j] by {
            assert(byte_codes(a[i])[j] == a[i][j] as u64);
            assert(byte_codes(b[i])[j] == b[i][j] as u64);
        }
        assert(a[i] =~= b[i]);
    }
    assert(a =~= b);
}

/// Where the names within each directory are distinct, no capture is listed twice, and each path
/// stands strictly before those that follow it.
pub proof fn law_list_is_strictly_sorted(
    display: Seq<char>,
    dir: DirListing,
    filter: Option<Seq<char>>,
)
    requires
        listed(display, Some(dir), filter) is Ok,
        names_are_distinct(dir),
    ensures
        listed(display, Some(dir), filter)->Ok_0.no_duplicates(),
        forall|i: int, j: int|
            0 <= i < j < listed(display, Some(dir), filter)->Ok_0.len() ==> lists_order(
                path_order(#[trigger] listed(display, Some(dir), filter)->Ok_0[i]),
                path_order(#[trigger] listed(display, Some(dir), filter)->Ok_0[j]),
            ) == Rank::Less,
{
    let top = Seq::<Seq<u8>>::empty();
    let met = captures_in(dir, top, filter)->Ok_0;
    let keys = path_orders(met);
    let order = sorted_positions(keys, met.len());
    let sorted = sorted_paths(met);
    lemma_met_once(dir, top, filter);
    lemma_sorted_paths(met);
    law_sort_is_stable(keys, met.len());
    assert forall|i: int, j: int| 0 <= i < j < sorted.len() implies lists_order(
        path_order(#[trigger] sorted[i]),
        path_order(#[trigger] sorted[j]),
    ) == Rank::Less && sorted[i] != sorted[j] by {
        assert(order[i] != order[j]);
        assert(0 <= order[i] < met.len() && 0 <= order[j] < met.len());
        assert(met[order[i]] != met[order[j]]);
        if path_order(sorted[i]) == path_order(sorted[j]) {
            lemma_path_order_tells_apart(sorted[i], sorted[j]);
        }
        lemma_lists_equal(path_order(sorted[i]), path_order(sorted[j]));
    }
}

} // verus!
