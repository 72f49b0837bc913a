use freemkv_tools::labels_corpus_check::captures::list_captures;
use freemkv_tools::labels_corpus_check::captures::walk;
use freemkv_tools::labels_corpus_check::captures::CapturePath;
use freemkv_tools::labels_corpus_check::captures::DirItem;
use freemkv_tools::labels_corpus_check::captures::DirListing;
use freemkv_tools::labels_corpus_check::captures::NamedItem;

fn dir(display: &str, items: Vec<DirItem>) -> DirListing {
    DirListing { display: display.to_string(), contents: Ok(items) }
}

fn file(name: &str) -> DirItem {
    DirItem::Named(NamedItem {
        name: name.as_bytes().to_vec(),
        shown: name.to_string(),
        dir: None,
    })
}

fn folder(name: &str, listing: DirListing) -> DirItem {
    DirItem::Named(NamedItem {
        name: name.as_bytes().to_vec(),
        shown: name.to_string(),
        dir: Some(listing),
    })
}

fn shown(paths: &[CapturePath]) -> Vec<String> {
    paths
        .iter()
        .map(|path| {
            let names: Vec<String> = path
                .names
                .iter()
                .map(|name| String::from_utf8_lossy(name).to_string())
                .collect();
            names.join("/")
        })
        .collect()
}

fn listed(listing: &DirListing, filter: Option<&str>) -> Vec<String> {
    match list_captures("c", Some(listing), filter) {
        Ok(paths) => shown(&paths),
        Err(message) => panic!("{}", message),
    }
}

fn refused(listing: Option<&DirListing>) -> String {
    match list_captures("c", listing, None) {
        Ok(_) => panic!("listed"),
        Err(message) => message,
    }
}

#[test]
fn captures_are_found_at_every_depth_and_sorted() {
    let tree = dir(
        "c",
        vec![
            file("z.iso"),
            folder("b", dir("c/b", vec![file("2.bin"), file("10.bin")])),
            file("b.bin"),
            folder("empty", dir("c/empty", vec![])),
            folder("a", dir("c/a", vec![folder("x", dir("c/a/x", vec![file("deep.iso")]))])),
        ],
    );
    assert_eq!(
        listed(&tree, None),
        vec!["a/x/deep.iso", "b/10.bin", "b/2.bin", "b.bin", "z.iso"]
    );
}

#[test]
fn only_captures_are_listed() {
    let tree = dir(
        "c",
        vec![
            file("a.bin"),
            file("a.BIN"),
            file(".bin"),
            file("bin"),
            file("..bin"),
            file("a.bin.bak"),
            file("a.snapshot.json"),
            file("a.b.iso"),
            folder("d.iso", dir("c/d.iso", vec![])),
        ],
    );
    assert_eq!(listed(&tree, None), vec!["..bin", "a.b.iso", "a.bin"]);
}

#[test]
fn the_filter_is_a_part_of_the_name() {
    let tree = dir(
        "c",
        vec![
            file("disc-07.bin"),
            file("disc-08.bin"),
            folder("disc-07", dir("c/disc-07", vec![file("other.bin"), file("x-disc-07.iso")])),
        ],
    );
    assert_eq!(listed(&tree, Some("disc-07")), vec!["disc-07/x-disc-07.iso", "disc-07.bin"]);
    assert_eq!(listed(&tree, Some("")).len(), 4);
    assert!(listed(&tree, Some("dune")).is_empty());
}

#[test]
fn errors_end_the_walk() {
    assert_eq!(refused(None), "not a directory: c");
    let closed =
        DirListing { display: "c".to_string(), contents: Err("permission denied".to_string()) };
    assert_eq!(refused(Some(&closed)), "read c: permission denied");
    let broken = dir(
        "c",
        vec![
            file("a.bin"),
            folder("d", dir("c/d", vec![DirItem::Failed("gone".to_string())])),
            DirItem::Failed("later".to_string()),
        ],
    );
    assert_eq!(refused(Some(&broken)), "entry in c/d: gone");
}

#[test]
fn a_snapshot_stands_next_to_its_capture() {
    let tree = dir("c", vec![folder("d", dir("c/d", vec![file("disc.07.bin")]))]);
    let paths = match list_captures("c", Some(&tree), None) {
        Ok(paths) => paths,
        Err(message) => panic!("{}", message),
    };
    assert_eq!(paths[0].basename(), b"disc.07".to_vec());
    assert_eq!(shown(&[paths[0].snapshot()]), vec!["d/disc.07.snapshot.json"]);
}

#[test]
fn a_walk_keeps_what_it_met_before_an_error() {
    let tree = dir(
        "c",
        vec![
            file("a.bin"),
            file("a.txt"),
            folder(
                "d",
                dir("c/d", vec![file("b.iso"), DirItem::Failed("gone".to_string()), file("e.bin")]),
            ),
            file("f.bin"),
        ],
    );
    let mut out = vec![CapturePath { names: vec![b"old".to_vec()] }];
    let above = vec![b"top".to_vec()];
    assert_eq!(walk(&tree, &above, &mut out, None), Err("entry in c/d: gone".to_string()));
    assert_eq!(shown(&out), vec!["old", "top/a.bin", "top/d/b.iso"]);
    let mut out = Vec::new();
    assert!(walk(&tree, &above, &mut out, Some("b.")).is_err());
    assert_eq!(shown(&out), vec!["top/d/b.iso"]);
}

#[test]
fn no_capture_is_listed_twice() {
    let tree = dir(
        "c",
        vec![
            folder("b", dir("c/b", vec![file("x.bin")])),
            folder("a", dir("c/a", vec![file("x.bin"), file("w.bin")])),
            file("x.bin"),
        ],
    );
    let paths = listed(&tree, None);
    assert_eq!(paths, vec!["a/w.bin", "a/x.bin", "b/x.bin", "x.bin"]);
}
