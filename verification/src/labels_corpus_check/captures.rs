//! The disc captures under a corpus directory.

use vstd::prelude::*;
use vstd::utf8::encode_utf8;

use crate::labels_corpus_check::captures_laws::law_met_paths_are_held;
use crate::order::as_positions;
use crate::order::key_views;
use crate::order::sort_positions;
use crate::order::sorted_positions;
use crate::order::SortKey;
use crate::text::contains_text;
use crate::text::occurs;

verus! {

/// A directory as it was read: how its path is written in messages, and its items or the message
/// of the error that reading it gave.
pub struct DirListing {
    pub display: String,
    pub contents: Result<Vec<DirItem>, String>,
}

/// One item of a directory, or the message of the error that came in its place.
pub enum DirItem {
    Failed(String),
    Named(NamedItem),
}

/// An item of a directory: the bytes of its name, the name as text, and, where it is a directory
/// itself, what that holds.
pub struct NamedItem {
    pub name: Vec<u8>,
    pub shown: String,
    pub dir: Option<DirListing>,
}

/// The path of a capture below the corpus directory: the names on the way, the file's own last.
pub struct CapturePath {
    pub names: Vec<Vec<u8>>,
}

impl View for CapturePath {
    type V = Seq<Seq<u8>>;

    open spec fn view(&self) -> Seq<Seq<u8>> {
        byte_views(self.names@)
    }
}

/// The views of a list of byte strings.
pub open spec fn byte_views(names: Seq<Vec<u8>>) -> Seq<Seq<u8>> {
    names.map_values(|name: Vec<u8>| name@)
}

/// The views of a list of paths.
pub open spec fn path_views(paths: Seq<CapturePath>) -> Seq<Seq<Seq<u8>>> {
    paths.map_values(|path: CapturePath| path@)
}

/// Whether a file name is that of a disc capture: something, a dot, and `bin` or `iso`.
pub open spec fn is_capture_name(name: Seq<u8>) -> bool {
    &&& name.len() > 4
    &&& name[name.len() - 4] == 0x2e
    &&& {
        ||| name[name.len() - 3] == 0x62 && name[name.len() - 2] == 0x69 && name[name.len() - 1]
            == 0x6e
        ||| name[name.len() - 3] == 0x69 && name[name.len() - 2] == 0x73 && name[name.len() - 1]
            == 0x6f
    }
}

/// Whether a name passes a filter: it contains the text, where one is given.
pub open spec fn passes(shown: Seq<char>, filter: Option<Seq<char>>) -> bool {
    match filter {
        Some(text) => occurs(shown, text),
        None => true,
    }
}

/// The captures below a directory in the order in which they are met, the files of a directory
/// inside it in its place; or the message of the first error that is met.
pub open spec fn captures_in(
    dir: DirListing,
    above: Seq<Seq<u8>>,
    filter: Option<Seq<char>>,
) -> Result<Seq<Seq<Seq<u8>>>, Seq<char>>
    decreases dir, 0nat,
{
    match dir.contents {
        Ok(items) => captures_among(items@, dir.display@, above, filter),
        Err(error) => Err("read "@ + dir.display@ + ": "@ + error@),
    }
}

/// The captures among the items of a directory.
pub open spec fn captures_among(
    items: Seq<DirItem>,
    display: Seq<char>,
    above: Seq<Seq<u8>>,
    filter: Option<Seq<char>>,
) -> Result<Seq<Seq<Seq<u8>>>, Seq<char>>
    decreases items, items.len(),
{
    if items.len() == 0 {
        Ok(Seq::empty())
    } else {
        match captures_among(items.drop_last(), display, above, filter) {
            Err(message) => Err(message),
            Ok(found) => match items.last() {
                DirItem::Failed(error) => Err("entry in "@ + display + ": "@ + error@),
                DirItem::Named(item) => match item.dir {
                    Some(dir) => match captures_in(dir, above.push(item.name@), filter) {
                        Err(message) => Err(message),
                        Ok(more) => Ok(found + more),
                    },
                    None => if is_capture_name(item.name@) && passes(item.shown@, filter) {
                        Ok(found.push(above.push(item.name@)))
                    } else {
                        Ok(found)
                    },
                },
            },
        }
    }
}

/// The captures below a directory that are met up to the first error, in the order in which they
/// are met; all of them where there is no error.
pub open spec fn met_in(
    dir: DirListing,
    above: Seq<Seq<u8>>,
    filter: Option<Seq<char>>,
) -> Seq<Seq<Seq<u8>>>
    decreases dir, 0nat,
{
    match dir.contents {
        Ok(items) => met_among(items@, dir.display@, above, filter),
        Err(_) => Seq::empty(),
    }
}

/// The captures among the items of a directory that are met up to the first error.
pub open spec fn met_among(
    items: Seq<DirItem>,
    display: Seq<char>,
    above: Seq<Seq<u8>>,
    filter: Option<Seq<char>>,
) -> Seq<Seq<Seq<u8>>>
    decreases items, items.len(),
{
    if items.len() == 0 {
        Seq::empty()
    } else if captures_among(items.drop_last(), display, above, filter) is Err {
        met_among(items.drop_last(), display, above, filter)
    } else {
        met_among(items.drop_last(), display, above, filter) + match items.last() {
            DirItem::Failed(_) => Seq::empty(),
            DirItem::Named(item) => match item.dir {
                Some(dir) => met_in(dir, above.push(item.name@), filter),
                None => if is_capture_name(item.name@) && passes(item.shown@, filter) {
                    seq![above.push(item.name@)]
                } else {
                    Seq::empty()
                },
            },
        }
    }
}

/// Whether a directory holds, at a path below it, a capture that passes the filter.
pub open spec fn holds_capture(
    dir: DirListing,
    path: Seq<Seq<u8>>,
    filter: Option<Seq<char>>,
) -> bool
    decreases dir, 0nat,
{
    match dir.contents {
        Ok(items) => some_item_holds(items@, path, filter),
        Err(_) => false,
    }
}

/// Whether one of a directory's items is, or holds, a capture at a path that passes the filter.
pub open spec fn some_item_holds(
    items: Seq<DirItem>,
    path: Seq<Seq<u8>>,
    filter: Option<Seq<char>>,
) -> bool
    decreases items, items.len(),
{
    items.len() > 0 && (some_item_holds(items.drop_last(), path, filter) || match items.last() {
        DirItem::Failed(_) => false,
        DirItem::Named(item) => match item.dir {
            Some(dir) => path.len() > 1 && path[0] == item.name@ && holds_capture(
                dir,
                path.skip(1),
                filter,
            ),
            None => path =~= seq![item.name@] && is_capture_name(item.name@) && passes(
                item.shown@,
                filter,
            ),
        },
    })
}

/// Whether a path is that of a capture which a directory holds, the path of the directory in front
/// of it.
pub open spec fn is_held_below(
    dir: DirListing,
    above: Seq<Seq<u8>>,
    filter: Option<Seq<char>>,
    path: Seq<Seq<u8>>,
) -> bool {
    &&& path.len() > above.len()
    &&& path.take(above.len() as int) == above
    &&& is_capture_name(path.last())
    &&& holds_capture(dir, path.skip(above.len() as int), filter)
}

/// A byte string as a row of numbers.
pub open spec fn byte_codes(name: Seq<u8>) -> Seq<u64> {
    name.map_values(|b: u8| b as u64)
}

/// What paths are ordered by: name by name, each by its bytes.
pub open spec fn path_order(path: Seq<Seq<u8>>) -> Seq<Seq<u64>> {
    path.map_values(|name: Seq<u8>| byte_codes(name))
}

/// The orders of a list of paths.
pub open spec fn path_orders(paths: Seq<Seq<Seq<u8>>>) -> Seq<Seq<Seq<u64>>> {
    paths.map_values(|path: Seq<Seq<u8>>| path_order(path))
}

/// Paths in ascending order.
pub open spec fn sorted_paths(paths: Seq<Seq<Seq<u8>>>) -> Seq<Seq<Seq<u8>>> {
    sorted_positions(path_orders(paths), paths.len()).map_values(|p: int| paths[p])
}

/// What is listed of a corpus directory: the captures below it in ascending order of their paths,
/// or the message of an error.
pub open spec fn listed(
    display: Seq<char>,
    listing: Option<DirListing>,
    filter: Option<Seq<char>>,
) -> Result<Seq<Seq<Seq<u8>>>, Seq<char>> {
    match listing {
        None => Err("not a directory: "@ + display),
        Some(dir) => match captures_in(dir, Seq::empty(), filter) {
            Err(message) => Err(message),
            Ok(found) => Ok(sorted_paths(found)),
        },
    }
}

/// Whether a file name is that of a disc capture.
fn names_capture(name: &Vec<u8>) -> (is_capture: bool)
    ensures
        is_capture == is_capture_name(name@),
{
    let n: usize = name.len();
    n > 4 && name[n - 4] == 0x2e && ((name[n - 3] == 0x62 && name[n - 2] == 0x69 && name[n - 1]
        == 0x6e) || (name[n - 3] == 0x69 && name[n - 2] == 0x73 && name[n - 1] == 0x6f))
}

/// The view of a filter that may be missing.
pub open spec fn filter_view(filter: Option<&str>) -> Option<Seq<char>> {
    match filter {
        Some(text) => Some(text@),
        None => None,
    }
}

/// A copy of a list of names.
fn copy_names(names: &Vec<Vec<u8>>) -> (copy: Vec<Vec<u8>>)
    ensures
        byte_views(copy@) == byte_views(names@),
{
    let copy: Vec<Vec<u8>> = names.clone();
    assert forall|i: int| 0 <= i < names@.len() implies #[trigger] copy@[i]@ == names@[i]@ by {
        assert(cloned(names@[i], copy@[i]));
        assert(copy@[i]@ =~= names@[i]@);
    }
    assert(byte_views(copy@) =~= byte_views(names@));
    copy
}

/// The path one name below another.
fn path_below(above: &Vec<Vec<u8>>, name: &Vec<u8>) -> (path: Vec<Vec<u8>>)
    ensures
        byte_views(path@) == byte_views(above@).push(name@),
{
    let mut path: Vec<Vec<u8>> = copy_names(above);
    let last: Vec<u8> = name.clone();
    assert(last@ =~= name@);
    let ghost before = path@;
    path.push(last);
    assert(byte_views(path@) =~= byte_views(before).push(last@));
    path
}

/// Collects the captures below a directory, in the order in which they are met.
pub fn walk(
    dir: &DirListing,
    above: &Vec<Vec<u8>>,
    out: &mut Vec<CapturePath>,
    filter: Option<&str>,
) -> (walked: Result<(), String>)
    ensures
        match (walked, captures_in(*dir, byte_views(above@), filter_view(filter))) {
            (Ok(_), Ok(found)) => path_views(final(out)@) == path_views(old(out)@) + found,
            (Err(message), Err(expected)) => message@ == expected,
            _ => false,
        },
        path_views(final(out)@) == path_views(old(out)@) + met_in(
            *dir,
            byte_views(above@),
            filter_view(filter),
        ),
        path_views(old(out)@).is_prefix_of(path_views(final(out)@)),
        forall|i: int|
            old(out)@.len() <= i < final(out)@.len() ==> is_held_below(
                *dir,
                byte_views(above@),
                filter_view(filter),
                #[trigger] path_views(final(out)@)[i],
            ),
    decreases dir,
{
    proof {
        law_met_paths_are_held(*dir, byte_views(above@), filter_view(filter));
    }
    let items: &Vec<DirItem> = match &dir.contents {
        Ok(items) => items,
        Err(error) => {
            assert(path_views(out@) =~= path_views(out@) + Seq::<Seq<Seq<u8>>>::empty());
            let mut message: String = "read ".to_owned();
            message.append(dir.display.as_str());
            message.append(": ");
            message.append(error.as_str());
            return Err(message);
        },
    };
    let ghost start = path_views(out@);
    let ghost display = dir.display@;
    let ghost prefix = byte_views(above@);
    let ghost f = filter_view(filter);
    let mut i: usize = 0;
    assert(path_views(out@) =~= start + Seq::<Seq<Seq<u8>>>::empty());
    while i < items.len()
        invariant
            i <= items.len(),
            dir.contents matches Ok(v) && v == *items,
            decreases_to!(dir => items),
            display == dir.display@,
            prefix == byte_views(above@),
            f == filter_view(filter),
            captures_among(items@.take(i as int), display, prefix, f) matches Ok(found)
                && path_views(out@) == start + found && met_among(
                items@.take(i as int),
                display,
                prefix,
                f,
            ) == found,
            start == path_views(old(out)@),
            forall|path: Seq<Seq<u8>>| #[trigger]
                met_in(*dir, prefix, f).contains(path) ==> is_held_below(*dir, prefix, f, path),
        decreases items.len() - i,
    {
        let ghost so_far = captures_among(items@.take(i as int), display, prefix, f)->Ok_0;
        assert(items@.take(i + 1).drop_last() =~= items@.take(i as int));
        assert(items@.take(i + 1).last() == items@[i as int]);
        match &items[i] {
            DirItem::Failed(error) => {
                proof {
                    lemma_error_stays(items@, i + 1, display, prefix, f);
                    lemma_added_are_met(start, path_views(out@), met_in(*dir, prefix, f));
                }
                let mut message: String = "entry in ".to_owned();
                message.append(dir.display.as_str());
                message.append(": ");
                message.append(error.as_str());
                return Err(message);
            },
            DirItem::Named(item) => {
                match &item.dir {
                    Some(inner) => {
                        let below: Vec<Vec<u8>> = path_below(above, &item.name);
                        let ghost before = path_views(out@);
                        assert(decreases_to!(items => items@[i as int]));
                        match walk(inner, &below, out, filter) {
                            Ok(_) => {
                                let ghost more = captures_in(*inner, prefix.push(item.name@), f)->Ok_0;
                                let ghost met = met_in(*inner, prefix.push(item.name@), f);
                                assert(path_views(out@) =~= start + (so_far + more));
                                assert(more =~= met) by {
                                    let all = path_views(out@);
                                    assert(all == before + more && all == before + met);
                                    assert(more =~= all.skip(before.len() as int));
                                    assert(met =~= all.skip(before.len() as int));
                                }
                            },
                            Err(message) => {
                                proof {
                                    let more = met_in(*inner, prefix.push(item.name@), f);
                                    assert(path_views(out@) =~= start + (so_far + more));
                                    lemma_error_stays(items@, i + 1, display, prefix, f);
                                    lemma_added_are_met(
                                        start,
                                        path_views(out@),
                                        met_in(*dir, prefix, f),
                                    );
                                }
                                return Err(message);
                            },
                        }
                    },
                    None => {
                        let wanted: bool = match filter {
                            Some(text) => contains_text(item.shown.as_str(), text),
                            None => true,
                        };
                        if names_capture(&item.name) && wanted {
                            let ghost before = out@;
                            let path = CapturePath { names: path_below(above, &item.name) };
                            out.push(path);
                            assert(path_views(out@) =~= path_views(before).push(path@));
                            assert(path_views(out@) =~= start + so_far.push(
                                prefix.push(item.name@),
                            ));
                            assert(so_far + seq![prefix.push(item.name@)] =~= so_far.push(
                                prefix.push(item.name@),
                            ));
                        } else {
                            assert(so_far + Seq::<Seq<Seq<u8>>>::empty() =~= so_far);
                        }
                    },
                }
            },
        }
        i = i + 1;
    }
    assert(items@.take(i as int) =~= items@);
    proof {
        lemma_added_are_met(start, path_views(out@), met_in(*dir, prefix, f));
    }
    Ok(())
}

/// What a list holds beyond its first part is what was added to that.
proof fn lemma_added_are_met(
    start: Seq<Seq<Seq<u8>>>,
    all: Seq<Seq<Seq<u8>>>,
    met: Seq<Seq<Seq<u8>>>,
)
    requires
        all == start + met,
    ensures
        start.is_prefix_of(all),
        forall|i: int| start.len() <= i < all.len() ==> met.contains(#[trigger] all[i]),
{
    assert forall|i: int| start.len() <= i < all.len() implies met.contains(#[trigger] all[i]) by {
        assert(all[i] == met[i - start.len()]);
    }
    assert(start =~= all.take(start.len() as int));
}

pub proof fn lemma_error_stays(
    items: Seq<DirItem>,
    n: int,
    display: Seq<char>,
    above: Seq<Seq<u8>>,
    filter: Option<Seq<char>>,
)
    requires
        0 <= n <= items.len(),
        captures_among(items.take(n), display, above, filter) is Err,
    ensures
        captures_among(items, display, above, filter) == captures_among(
            items.take(n),
            display,
            above,
            filter,
        ),
        met_among(items, display, above, filter) == met_among(
            items.take(n),
            display,
            above,
            filter,
        ),
    decreases items.len(),
{
    if n == items.len() {
        assert(items.take(n) =~= items);
    } else {
        assert(items.drop_last().take(n) =~= items.take(n));
        lemma_error_stays(items.drop_last(), n, display, above, filter);
    }
}

/// The sort key of a path.
fn path_sort_key(path: &CapturePath) -> (key: SortKey)
    ensures
        key@ == path_order(path@),
{
    let mut rows: Vec<Vec<u64>> = Vec::new();
    let mut i: usize = 0;
    while i < path.names.len()
        invariant
            i <= path.names.len(),
            rows@.len() == i,
            forall|k: int|
                0 <= k < i ==> (#[trigger] rows@[k])@ == byte_codes(path.names@[k]@),
        decreases path.names.len() - i,
    {
        let name: &Vec<u8> = &path.names[i];
        let mut row: Vec<u64> = Vec::new();
        let mut j: usize = 0;
        while j < name.len()
            invariant
                j <= name.len(),
                row@ =~= byte_codes(name@).take(j as int),
            decreases name.len() - j,
        {
            row.push(name[j] as u64);
            j = j + 1;
        }
        assert(row@ =~= byte_codes(name@));
        rows.push(row);
        i = i + 1;
    }
    let key = SortKey { rows };
    assert(key@ =~= path_order(path@));
    key
}

/// Lists the disc captures below a directory in ascending order of their paths. The directory is
/// missing where the path is not that of a directory.
pub fn list_captures(dir: &str, listing: Option<&DirListing>, filter: Option<&str>) -> (captures:
    Result<Vec<CapturePath>, String>)
    ensures
        match (captures, listed(dir@, listing_view(listing), filter_view(filter))) {
            (Ok(paths), Ok(expected)) => path_views(paths@) == expected,
            (Err(message), Err(expected)) => message@ == expected,
            _ => false,
        },
{
    let tree: &DirListing = match listing {
        Some(tree) => tree,
        None => {
            let mut message: String = "not a directory: ".to_owned();
            message.append(dir);
            return Err(message);
        },
    };
    let mut found: Vec<CapturePath> = Vec::new();
    let top: Vec<Vec<u8>> = Vec::new();
    assert(byte_views(top@) =~= Seq::<Seq<u8>>::empty());
    assert(path_views(found@) =~= Seq::<Seq<Seq<u8>>>::empty());
    match walk(tree, &top, &mut found, filter) {
        Ok(_) => {},
        Err(message) => {
            return Err(message);
        },
    }
    let ghost met = path_views(found@);
    assert(met =~= captures_in(*tree, Seq::empty(), filter_view(filter))->Ok_0);
    let mut keys: Vec<SortKey> = Vec::new();
    let mut i: usize = 0;
    assert(key_views(keys@) =~= path_orders(met).take(0));
    while i < found.len()
        invariant
            i <= found.len(),
            met == path_views(found@),
            key_views(keys@) == path_orders(met).take(i as int),
            keys@.len() == i,
        decreases found.len() - i,
    {
        let ghost before = keys@;
        let key: SortKey = path_sort_key(&found[i]);
        keys.push(key);
        assert(key_views(keys@) =~= key_views(before).push(key@));
        assert(key_views(keys@) =~= path_orders(met).take(i + 1));
        i = i + 1;
    }
    assert(path_orders(met).take(i as int) =~= path_orders(met));
    let order: Vec<usize> = sort_positions(&keys);
    let mut captures: Vec<CapturePath> = Vec::new();
    let mut k: usize = 0;
    assert(path_views(captures@) =~= sorted_paths(met).take(0));
    while k < order.len()
        invariant
            k <= order.len(),
            met == path_views(found@),
            order@.len() == found@.len(),
            as_positions(order@) == sorted_positions(path_orders(met), met.len()),
            forall|i: int| 0 <= i < order@.len() ==> 0 <= #[trigger] order@[i] < found@.len(),
            path_views(captures@) == sorted_paths(met).take(k as int),
        decreases order.len() - k,
    {
        let ghost before = captures@;
        let p: usize = order[k];
        assert(as_positions(order@)[k as int] == p as int);
        let path = CapturePath { names: copy_names(&found[p].names) };
        captures.push(path);
        assert(path_views(captures@) =~= path_views(before).push(met[p as int]));
        assert(sorted_paths(met)[k as int] == met[p as int]);
        assert(path_views(captures@) =~= sorted_paths(met).take(k + 1));
        k = k + 1;
    }
    assert(sorted_paths(met).len() == as_positions(order@).len());
    assert(sorted_paths(met).take(k as int) =~= sorted_paths(met));
    Ok(captures)
}

/// The listing that a reference stands for.
pub open spec fn listing_view(listing: Option<&DirListing>) -> Option<DirListing> {
    match listing {
        Some(dir) => Some(*dir),
        None => None,
    }
}

/// The name of a capture without its ending.
pub open spec fn basename_of(name: Seq<u8>) -> Seq<u8> {
    name.take(name.len() - 4)
}

/// The name of the snapshot that is kept of a capture.
pub open spec fn snapshot_name_of(name: Seq<u8>) -> Seq<u8> {
    basename_of(name) + encode_utf8(".snapshot.json"@)
}

impl CapturePath {
    /// Whether the path ends in the name of a capture.
    pub open spec fn is_capture(&self) -> bool {
        self@.len() > 0 && is_capture_name(self@.last())
    }

    /// The name of the capture without its ending.
    pub fn basename(&self) -> (basename: Vec<u8>)
        requires
            self.is_capture(),
        ensures
            basename@ == basename_of(self@.last()),
    {
        let name: &Vec<u8> = &self.names[self.names.len() - 1];
        assert(name@ == self@.last());
        let mut basename: Vec<u8> = name.clone();
        assert(basename@ =~= name@);
        basename.truncate(name.len() - 4);
        assert(basename@ =~= basename_of(name@));
        basename
    }

    /// The path of the snapshot that is kept of the capture, next to it.
    pub fn snapshot(&self) -> (snapshot: CapturePath)
        requires
            self.is_capture(),
        ensures
            snapshot@ == self@.drop_last().push(snapshot_name_of(self@.last())),
    {
        let mut name: Vec<u8> = self.basename();
        let mut ending: Vec<u8> = ".snapshot.json".as_bytes_vec();
        name.append(&mut ending);
        let mut names: Vec<Vec<u8>> = copy_names(&self.names);
        names.truncate(self.names.len() - 1);
        assert(byte_views(names@) =~= self@.drop_last());
        CapturePath { names: path_below(&names, &name) }
    }
}

} // verus!
