//! Extraction of the `/BDMV` tree of a disc image: which directories are visited, which files are
//! read, and what is counted.

pub mod entry_laws;
pub mod traversal;

use vstd::prelude::*;

use crate::text::decimal;
use crate::text::decimal_text;
use crate::text::same_text;
use crate::text::texts;

verus! {

/// How an extraction is used.
pub const HELP: &'static str = "freemkv-tools labels-extract — dump /BDMV/ tree from a disc image

Usage: freemkv-tools labels-extract <image> <out-dir>

  <image>    disc image file (1 GB head capture or full ISO)
  <out-dir>  destination dir; created if missing; tree mirrors disc

Files >64 MB are skipped (m2ts payloads). Files whose sectors fall
past the 1 GB capture window are also skipped silently — counts are
reported on stderr.";

/// How an extraction is used.
pub fn help_text() -> (text: &'static str)
    ensures
        text@ == HELP@,
{
    HELP
}

/// The size in bytes above which a file is skipped.
pub const SKIP_LARGER_THAN: u64 = 64 * 1024 * 1024;

/// Whether a command line asks for help: there are not two arguments, or the first one says so.
pub open spec fn asks_for_help(args: Seq<Seq<char>>) -> bool {
    args.len() < 2 || args[0] == "--help"@ || args[0] == "-h"@
}

/// The image to read and the directory to extract into; none where the command line asks for help.
pub fn requested_paths(argv: &[String]) -> (paths: Option<(&str, &str)>)
    ensures
        paths is None <==> asks_for_help(texts(argv@)),
        paths matches Some((image, out_dir)) ==> image@ == texts(argv@)[0] && out_dir@ == texts(
            argv@,
        )[1],
{
    if argv.len() < 2 {
        return None;
    }
    assert(texts(argv@)[0] == argv@[0]@);
    assert(texts(argv@)[1] == argv@[1]@);
    let first: &str = argv[0].as_str();
    if same_text(first, "--help") || same_text(first, "-h") {
        None
    } else {
        Some((first, argv[1].as_str()))
    }
}

/// An entry of a directory of the disc.
pub struct DiscEntry {
    pub name: String,
    pub is_dir: bool,
    pub size: u64,
}

/// A place on the disc and where it is extracted to: its path on the disc, and the names on the way
/// there below the output directory.
pub struct Place {
    pub disc_path: String,
    pub names: Vec<String>,
}

/// A place on the disc and where it is extracted to.
pub struct PlaceView {
    pub disc_path: Seq<char>,
    pub names: Seq<Seq<char>>,
}

impl View for Place {
    type V = PlaceView;

    open spec fn view(&self) -> PlaceView {
        PlaceView { disc_path: self.disc_path@, names: texts(self.names@) }
    }
}

/// The views of a list of places.
pub open spec fn place_views(places: Seq<Place>) -> Seq<PlaceView> {
    places.map_values(|place: Place| place@)
}

/// Where an extraction starts.
pub open spec fn root_place() -> PlaceView {
    PlaceView { disc_path: "/BDMV"@, names: seq!["BDMV"@] }
}

/// The place of an entry of a directory.
pub open spec fn place_below(place: PlaceView, name: Seq<char>) -> PlaceView {
    PlaceView { disc_path: place.disc_path + "/"@ + name, names: place.names.push(name) }
}

/// Whether an entry is a file that is small enough to be read.
pub open spec fn is_wanted(entry: DiscEntry) -> bool {
    !entry.is_dir && entry.size <= SKIP_LARGER_THAN
}

/// Whether an entry is a file that is too large.
pub open spec fn is_too_large(entry: DiscEntry) -> bool {
    !entry.is_dir && entry.size > SKIP_LARGER_THAN
}

/// The places of the directories among entries, in their order.
pub open spec fn directories(place: PlaceView, entries: Seq<DiscEntry>) -> Seq<PlaceView>
    decreases entries.len(),
{
    if entries.len() == 0 {
        Seq::empty()
    } else if entries.last().is_dir {
        directories(place, entries.drop_last()).push(place_below(place, entries.last().name@))
    } else {
        directories(place, entries.drop_last())
    }
}

/// The places of the files among entries that are to be read, in their order.
pub open spec fn wanted_files(place: PlaceView, entries: Seq<DiscEntry>) -> Seq<PlaceView>
    decreases entries.len(),
{
    if entries.len() == 0 {
        Seq::empty()
    } else if is_wanted(entries.last()) {
        wanted_files(place, entries.drop_last()).push(place_below(place, entries.last().name@))
    } else {
        wanted_files(place, entries.drop_last())
    }
}

/// How many of the entries are files that are too large.
pub open spec fn too_large_count(entries: Seq<DiscEntry>) -> nat
    decreases entries.len(),
{
    if entries.len() == 0 {
        0
    } else {
        too_large_count(entries.drop_last()) + if is_too_large(entries.last()) {
            1nat
        } else {
            0nat
        }
    }
}

/// An extraction: the directories that are still to be visited, and what was counted.
pub struct Extraction {
    pub work: Vec<Place>,
    pub written: usize,
    pub skipped_size: usize,
    pub skipped_read: usize,
}

impl Place {
    /// The place of an entry of this directory.
    fn below(&self, name: &str) -> (place: Place)
        ensures
            place@ == place_below(self@, name@),
    {
        let mut disc_path: String = self.disc_path.clone();
        disc_path.append("/");
        disc_path.append(name);
        let mut names: Vec<String> = self.names.clone();
        assert(texts(names@) =~= texts(self.names@));
        let ghost before = names@;
        names.push(name.to_owned());
        assert(texts(names@) =~= texts(before).push(names@[names@.len() - 1]@));
        Place { disc_path, names }
    }
}

/// What is reported of an extraction.
pub open spec fn summary_of(written: nat, skipped_size: nat, skipped_read: nat) -> Seq<char> {
    "extracted "@ + decimal(written) + " files, skipped "@ + decimal(skipped_size)
        + " large (m2ts), skipped "@ + decimal(skipped_read)
        + " read-errors (past capture window)"@
}

impl Extraction {
    /// Starts an extraction: only the root is to be visited.
    pub fn new() -> (extraction: Extraction)
        ensures
            place_views(extraction.work@) == seq![root_place()],
            extraction.written == 0,
            extraction.skipped_size == 0,
            extraction.skipped_read == 0,
    {
        let names: Vec<String> = vec!["BDMV".to_owned()];
        assert(texts(names@) =~= seq!["BDMV"@]);
        let root = Place { disc_path: "/BDMV".to_owned(), names };
        let work: Vec<Place> = vec![root];
        assert(place_views(work@) =~= seq![root_place()]);
        Extraction { work, written: 0, skipped_size: 0, skipped_read: 0 }
    }

    /// Takes the directory to visit next, the one that was found last; none when all are visited.
    pub fn next_directory(&mut self) -> (place: Option<Place>)
        ensures
            place is None <==> old(self).work@.len() == 0,
            place is None ==> final(self).work@ == old(self).work@,
            place matches Some(p) ==> p == old(self).work@.last() && final(self).work@
                == old(self).work@.drop_last(),
            final(self).written == old(self).written,
            final(self).skipped_size == old(self).skipped_size,
            final(self).skipped_read == old(self).skipped_read,
    {
        self.work.pop()
    }

    /// Visits a directory: its directories are to be visited too, its files that are too large are
    /// counted, and the others are handed out to be read.
    pub fn visit(&mut self, place: &Place, entries: &Vec<DiscEntry>) -> (files: Vec<Place>)
        requires
            old(self).skipped_size + entries@.len() <= usize::MAX,
        ensures
            place_views(final(self).work@) == place_views(old(self).work@) + directories(
                place@,
                entries@,
            ),
            place_views(files@) == wanted_files(place@, entries@),
            final(self).skipped_size == old(self).skipped_size + too_large_count(entries@),
            final(self).written == old(self).written,
            final(self).skipped_read == old(self).skipped_read,
    {
        let ghost start = place_views(self.work@);
        let ghost skipped = self.skipped_size as int;
        let mut files: Vec<Place> = Vec::new();
        let mut i: usize = 0;
        assert(place_views(self.work@) =~= start + directories(place@, entries@.take(0)));
        assert(place_views(files@) =~= wanted_files(place@, entries@.take(0)));
        while i < entries.len()
            invariant
                i <= entries.len(),
                skipped + entries@.len() <= usize::MAX,
                place_views(self.work@) == start + directories(place@, entries@.take(i as int)),
                place_views(files@) == wanted_files(place@, entries@.take(i as int)),
                self.skipped_size == skipped + too_large_count(entries@.take(i as int)),
                too_large_count(entries@.take(i as int)) <= i,
                self.written == old(self).written,
                self.skipped_read == old(self).skipped_read,
            decreases entries.len() - i,
        {
            assert(entries@.take(i + 1).drop_last() =~= entries@.take(i as int));
            let entry: &DiscEntry = &entries[i];
            let ghost work_before = self.work@;
            let ghost files_before = files@;
            if entry.is_dir {
                let below: Place = place.below(entry.name.as_str());
                self.work.push(below);
                assert(place_views(self.work@) =~= place_views(work_before).push(below@));
                assert(place_views(self.work@) =~= start + directories(
                    place@,
                    entries@.take(i + 1),
                ));
            } else if entry.size > SKIP_LARGER_THAN {
                self.skipped_size = self.skipped_size + 1;
            } else {
                let below: Place = place.below(entry.name.as_str());
                files.push(below);
                assert(place_views(files@) =~= place_views(files_before).push(below@));
            }
            i = i + 1;
        }
        assert(entries@.take(i as int) =~= entries@);
        files
    }

    /// Counts a file that was read and written.
    pub fn file_written(&mut self)
        requires
            old(self).written < usize::MAX,
        ensures
            *final(self) == (Extraction { written: (old(self).written + 1) as usize, ..*old(self) }),
    {
        self.written = self.written + 1;
    }

    /// Counts a file that could not be read: its sectors are past the capture.
    pub fn file_unreadable(&mut self)
        requires
            old(self).skipped_read < usize::MAX,
        ensures
            *final(self) == (Extraction {
                skipped_read: (old(self).skipped_read + 1) as usize,
                ..*old(self)
            }),
    {
        self.skipped_read = self.skipped_read + 1;
    }

    /// What is reported of the extraction.
    pub fn summary(&self) -> (text: String)
        ensures
            text@ == summary_of(
                self.written as nat,
                self.skipped_size as nat,
                self.skipped_read as nat,
            ),
    {
        let mut text: String = "extracted ".to_owned();
        text.append(decimal_text(self.written as u64).as_str());
        text.append(" files, skipped ");
        text.append(decimal_text(self.skipped_size as u64).as_str());
        text.append(" large (m2ts), skipped ");
        text.append(decimal_text(self.skipped_read as u64).as_str());
        text.append(" read-errors (past capture window)");
        text
    }
}

/// Every entry of a directory is dealt with in one way: visited, read, or counted as too large.
pub proof fn law_each_entry_is_dealt_with_once(place: PlaceView, entries: Seq<DiscEntry>)
    ensures
        directories(place, entries).len() + wanted_files(place, entries).len() + too_large_count(
            entries,
        ) == entries.len(),
    decreases entries.len(),
{
    if entries.len() > 0 {
        law_each_entry_is_dealt_with_once(place, entries.drop_last());
    }
}

/// Whether a place on the disc is mirrored below the output directory: the path on the disc is made
/// of the same names.
pub open spec fn is_mirrored(place: PlaceView) -> bool {
    place.names.len() > 0 && place.disc_path == path_of(place.names)
}

/// The path on the disc that is made of names.
pub open spec fn path_of(names: Seq<Seq<char>>) -> Seq<char>
    decreases names.len(),
{
    if names.len() == 0 {
        Seq::empty()
    } else {
        path_of(names.drop_last()) + "/"@ + names.last()
    }
}

/// The extracted tree mirrors the disc: the root does, and every file and directory found in a
/// directory that does.
pub proof fn law_tree_mirrors_disc(place: PlaceView, entries: Seq<DiscEntry>)
    requires
        is_mirrored(place),
    ensures
        is_mirrored(root_place()),
        forall|i: int|
            0 <= i < directories(place, entries).len() ==> is_mirrored(
                #[trigger] directories(place, entries)[i],
            ),
        forall|i: int|
            0 <= i < wanted_files(place, entries).len() ==> is_mirrored(
                #[trigger] wanted_files(place, entries)[i],
            ),
    decreases entries.len(),
{
    reveal_strlit("/BDMV");
    reveal_strlit("BDMV");
    reveal_strlit("/");
    let names = seq!["BDMV"@];
    assert(names.drop_last() =~= Seq::<Seq<char>>::empty());
    assert(path_of(names.drop_last()) =~= Seq::<char>::empty());
    assert(path_of(names) =~= "/BDMV"@);
    if entries.len() > 0 {
        law_tree_mirrors_disc(place, entries.drop_last());
        let below = place_below(place, entries.last().name@);
        assert(below.names.drop_last() =~= place.names);
        assert(is_mirrored(below));
        let dirs = directories(place, entries.drop_last());
        assert forall|i: int| 0 <= i < directories(place, entries).len() implies is_mirrored(
            #[trigger] directories(place, entries)[i],
        ) by {
            assert(i < dirs.len() ==> directories(place, entries)[i] == dirs[i]);
        }
        let files = wanted_files(place, entries.drop_last());
        assert forall|i: int| 0 <= i < wanted_files(place, entries).len() implies is_mirrored(
            #[trigger] wanted_files(place, entries)[i],
        ) by {
            assert(i < files.len() ==> wanted_files(place, entries)[i] == files[i]);
        }
    }
}

} // verus!
