use freemkv_tools::labels_extract::help_text;
use freemkv_tools::labels_extract::requested_paths;
use freemkv_tools::labels_extract::DiscEntry;
use freemkv_tools::labels_extract::Extraction;
use freemkv_tools::labels_extract::Place;

fn entry(name: &str, is_dir: bool, size: u64) -> DiscEntry {
    DiscEntry { name: name.to_string(), is_dir, size }
}

fn line(words: &[&str]) -> Vec<String> {
    words.iter().map(|w| w.to_string()).collect()
}

fn paths(places: &[Place]) -> Vec<&str> {
    places.iter().map(|p| p.disc_path.as_str()).collect()
}

#[test]
fn extraction_starts_at_the_root() {
    let mut extraction = Extraction::new();
    let root = extraction.next_directory().unwrap();
    assert_eq!(root.disc_path, "/BDMV");
    assert_eq!(root.names, vec!["BDMV"]);
    assert!(extraction.next_directory().is_none());
}

#[test]
fn each_entry_is_visited_read_or_skipped() {
    let mut extraction = Extraction::new();
    let root = extraction.next_directory().unwrap();
    let entries = vec![
        entry("JAR", true, 0),
        entry("index.bdmv", false, 100),
        entry("00001.m2ts", false, 64 * 1024 * 1024 + 1),
        entry("00002.m2ts", false, 64 * 1024 * 1024),
        entry("PLAYLIST", true, 0),
    ];
    let files = extraction.visit(&root, &entries);
    assert_eq!(paths(&files), vec!["/BDMV/index.bdmv", "/BDMV/00002.m2ts"]);
    assert_eq!(files[0].names, vec!["BDMV", "index.bdmv"]);
    assert_eq!(paths(&extraction.work), vec!["/BDMV/JAR", "/BDMV/PLAYLIST"]);
    assert_eq!(extraction.skipped_size, 1);
    assert_eq!(extraction.work.len() + files.len() + extraction.skipped_size, entries.len());
}

#[test]
fn the_whole_tree_is_visited() {
    let mut extraction = Extraction::new();
    let mut visited: Vec<String> = Vec::new();
    let mut read: Vec<String> = Vec::new();
    while let Some(place) = extraction.next_directory() {
        let entries = match place.disc_path.as_str() {
            "/BDMV" => vec![entry("A", true, 0), entry("B", true, 0), entry("f", false, 1)],
            "/BDMV/A" => vec![entry("C", true, 0), entry("g", false, 1)],
            "/BDMV/A/C" => vec![entry("h", false, 1)],
            _ => vec![],
        };
        visited.push(place.disc_path.clone());
        for file in extraction.visit(&place, &entries) {
            assert_eq!(file.disc_path, format!("/{}", file.names.join("/")));
            read.push(file.disc_path.clone());
            extraction.file_written();
        }
    }
    assert_eq!(visited, vec!["/BDMV", "/BDMV/B", "/BDMV/A", "/BDMV/A/C"]);
    assert_eq!(read, vec!["/BDMV/f", "/BDMV/A/g", "/BDMV/A/C/h"]);
    assert_eq!(extraction.written, 3);
}

#[test]
fn extraction_is_summed_up() {
    let mut extraction = Extraction::new();
    let root = extraction.next_directory().unwrap();
    let files = extraction.visit(
        &root,
        &vec![entry("a", false, 1), entry("b", false, 2), entry("c", false, u64::MAX)],
    );
    assert_eq!(files.len(), 2);
    extraction.file_written();
    extraction.file_unreadable();
    assert_eq!(
        extraction.summary(),
        "extracted 1 files, skipped 1 large (m2ts), skipped 1 read-errors (past capture window)"
    );
}

#[test]
fn extraction_needs_two_paths() {
    assert!(requested_paths(&line(&[])).is_none());
    assert!(requested_paths(&line(&["disc.iso"])).is_none());
    assert!(requested_paths(&line(&["--help", "out"])).is_none());
    assert!(requested_paths(&line(&["-h", "out"])).is_none());
    assert_eq!(requested_paths(&line(&["disc.iso", "out"])), Some(("disc.iso", "out")));
    assert_eq!(requested_paths(&line(&["disc.iso", "-h", "x"])), Some(("disc.iso", "-h")));
}

#[test]
fn extraction_help_names_its_arguments() {
    assert!(help_text().starts_with("freemkv-tools labels-extract — dump /BDMV/ tree"));
    assert!(help_text().ends_with("reported on stderr."));
}

#[test]
fn every_file_of_the_tree_is_counted() {
    let mut extraction = Extraction::new();
    let mut files = 0;
    while let Some(place) = extraction.next_directory() {
        let entries = match place.disc_path.as_str() {
            "/BDMV" => vec![entry("A", true, 0), entry("f", false, 1), entry("g", false, u64::MAX)],
            "/BDMV/A" => vec![entry("h", false, 1), entry("i", false, 1)],
            _ => vec![],
        };
        files += entries.iter().filter(|e| !e.is_dir).count();
        for file in extraction.visit(&place, &entries) {
            if file.disc_path.ends_with('h') {
                extraction.file_unreadable();
            } else {
                extraction.file_written();
            }
        }
    }
    assert_eq!(files, 4);
    assert_eq!(extraction.written + extraction.skipped_size + extraction.skipped_read, files);
}
