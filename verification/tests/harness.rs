use freemkv_tools::json::Json;
use freemkv_tools::json_value::parse_json;
use freemkv_tools::labels_corpus_check::analysis::build_analysis_json;
use freemkv_tools::labels_corpus_check::analysis::snapshot_text;
use freemkv_tools::labels_corpus_check::analysis::Analysis;
use freemkv_tools::labels_corpus_check::diff::diff_exact;
use freemkv_tools::labels_corpus_check::diff::diff_structural;
use freemkv_tools::labels_corpus_check::diff::json_brief;
use freemkv_tools::labels_corpus_check::harness::Harness;
use freemkv_tools::labels_corpus_check::options::Options;

fn json(text: &str) -> Json {
    match parse_json(text) {
        Ok(value) => value,
        Err(message) => panic!("{}", message),
    }
}

fn line(words: &[&str]) -> Vec<String> {
    words.iter().map(|w| w.to_string()).collect()
}

fn harness(captures: usize) -> Harness {
    match Harness::start(captures, "corpus") {
        Ok(harness) => harness,
        Err(message) => panic!("{}", message),
    }
}

#[test]
fn exact_lines_name_each_member_that_differs() {
    let want = json(r#"{"a": 1, "c": [1], "d": null, "same": "x"}"#);
    let got = json(r#"{"same": "x", "c": [2], "b": true, "a": 1}"#);
    assert_eq!(
        diff_exact(&want, &got),
        vec![
            "b: want=<missing> got=true",
            "c: want=[1] got=[2]",
            "d: want=null got=<missing>",
        ]
    );
    assert_eq!(diff_exact(&json("1"), &json("{}")), vec!["root: want=1 got={}"]);
    assert!(diff_exact(&json("[1]"), &json("[1]")).is_empty());
    assert!(diff_exact(&want, &want).is_empty());
}

#[test]
fn structural_lines_come_in_a_fixed_order() {
    let want = json(
        r#"{"parser": "p", "confidence": "High", "labels": [
            {"stream_type": "subtitle", "stream_number": 1, "language": "eng"},
            {"stream_type": "audio", "stream_number": 2, "language": "spa"}, 5]}"#,
    );
    let got = json(
        r#"{"parser": null, "confidence": "Low", "subtitle_count": 0, "labels": [
            {"stream_type": "audio", "stream_number": 2, "language": "fra", "name": "n"}]}"#,
    );
    assert_eq!(
        diff_structural(&want, &got),
        vec![
            "parser: want=\"p\" got=null",
            "confidence: want=\"High\" got=\"Low\"",
            "subtitle_count: want=<missing> got=0",
            "labels.len: want=2 got=1",
            "labels[0].language: want=\"spa\" got=\"fra\"",
            "labels[0].name: want=<missing> got=\"n\"",
        ]
    );
}

#[test]
fn labels_of_one_stream_keep_their_order() {
    let a = json(
        r#"{"labels": [{"stream_type": "audio", "stream_number": 1, "name": "x"},
            {"stream_type": "audio", "stream_number": 1, "name": "y"}]}"#,
    );
    let b = json(
        r#"{"labels": [{"stream_type": "audio", "stream_number": 1, "name": "y"},
            {"stream_type": "audio", "stream_number": 1, "name": "x"}]}"#,
    );
    assert_eq!(
        diff_structural(&a, &b),
        vec![
            "labels[0].name: want=\"x\" got=\"y\"",
            "labels[1].name: want=\"y\" got=\"x\"",
        ]
    );
}

#[test]
fn streams_are_ordered_by_type_and_number() {
    let a = json(
        r#"{"labels": [{"stream_type": "subtitle", "stream_number": 1},
            {"stream_type": "audio", "stream_number": 10},
            {"stream_type": "audio", "stream_number": 9},
            {"stream_number": 3}]}"#,
    );
    let b = json(
        r#"{"labels": [{"stream_number": 3},
            {"stream_type": "audio", "stream_number": 9},
            {"stream_type": "audio", "stream_number": 10},
            {"stream_type": "subtitle", "stream_number": 1}]}"#,
    );
    assert!(diff_structural(&a, &b).is_empty());
    let c = json(
        r#"{"labels": [{"stream_number": 3},
            {"stream_type": "audio", "stream_number": 9},
            {"stream_type": "audio", "stream_number": 11},
            {"stream_type": "subtitle", "stream_number": 1}]}"#,
    );
    assert_eq!(diff_structural(&a, &c), vec!["labels[2].stream_number: want=10 got=11"]);
}

#[test]
fn raw_codes_are_ignored_by_structure_only() {
    let want = json(r#"{"parser": "p", "raw_codes": ["a"]}"#);
    let got = json(r#"{"parser": "p", "raw_codes": ["b"]}"#);
    assert!(diff_structural(&want, &got).is_empty());
    assert_eq!(diff_exact(&want, &got), vec!["raw_codes: want=[\"a\"] got=[\"b\"]"]);
}

#[test]
fn long_values_are_cut_at_eighty_bytes() {
    let short = Json::Text("x".repeat(78));
    assert_eq!(json_brief(Some(&short)), format!("\"{}\"", "x".repeat(78)));
    let long = Json::Text("x".repeat(79));
    assert_eq!(json_brief(Some(&long)), format!("\"{}…", "x".repeat(79)));
    let accents = Json::Text(format!("x{}", "é".repeat(50)));
    assert_eq!(json_brief(Some(&accents)), format!("\"x{}…", "é".repeat(39)));
    assert_eq!(json_brief(None), "<missing>");
}

#[test]
fn options_are_read_in_any_order() {
    let none = Options::parse(&[]).unwrap();
    assert_eq!(none.corpus_dir, ".");
    assert!(!none.help);
    let opts = Options::parse(&line(&["--filter", "--update", "dir", "-h", "--filter", "y"]))
        .unwrap();
    assert_eq!(opts.corpus_dir, "dir");
    assert_eq!(opts.filter.as_deref(), Some("y"));
    assert!(!opts.update);
    assert!(opts.help);
    assert!(Options::parse(&line(&["--help"])).unwrap().help);
}

#[test]
fn switches_may_stand_anywhere_and_be_repeated() {
    let a = Options::parse(&line(&["dir", "--update", "--filter", "x", "-h"])).unwrap();
    let b = Options::parse(&line(&["-h", "--filter", "x", "--update", "-h", "dir", "--update"]))
        .unwrap();
    assert_eq!(
        (a.corpus_dir, a.update, a.exact, a.filter, a.help),
        (b.corpus_dir, b.update, b.exact, b.filter, b.help)
    );
}

#[test]
fn options_that_do_not_fit_are_refused() {
    let filter = match Options::parse(&line(&["--filter"])) {
        Ok(_) => panic!("taken"),
        Err(message) => message,
    };
    assert_eq!(filter, "--filter requires an argument");
    let second = match Options::parse(&line(&["a", "b", "--filter"])) {
        Ok(_) => panic!("taken"),
        Err(message) => message,
    };
    assert_eq!(second, "unexpected positional argument: b");
}

#[test]
fn a_check_needs_captures() {
    match Harness::start(0, "corpus") {
        Ok(_) => panic!("started"),
        Err(message) => {
            assert_eq!(message, "no disc captures (*.bin or *.iso) found under corpus")
        }
    }
}

#[test]
fn each_capture_gets_a_line() {
    let mut h = harness(7);
    let current = json(r#"{"parser": "p"}"#);
    assert_eq!(
        h.analysis_failed("disc-01", "udf: Bad"),
        "FAIL disc-01                  (analyze error: udf: Bad)"
    );
    assert_eq!(
        h.snapshot_written("disc-02", "c/disc-02.snapshot.json"),
        "UPDATE disc-02                -> c/disc-02.snapshot.json"
    );
    assert_eq!(
        h.snapshot_missing("disc-03", "disc-03.snapshot.json"),
        "MISS disc-03                  (no disc-03.snapshot.json; run with --update to create)"
    );
    assert_eq!(
        h.check_snapshot("disc-04", "s.json", "nonsense", &current, false),
        Some(
            "FAIL disc-04                  (snapshot parse error in s.json: expected ident at \
             line 1 column 2)"
                .to_string()
        )
    );
    assert_eq!(
        h.check_snapshot("disc-05", "s.json", r#"{"parser": "p"}"#, &current, true),
        Some("PASS disc-05".to_string())
    );
    assert_eq!(
        h.check_snapshot("disc-06", "s.json", r#"{"parser": "q"}"#, &current, true),
        Some("FAIL disc-06                  (1 diff)".to_string())
    );
    assert_eq!(
        h.check_snapshot("disc-07", "s.json", r#"{"parser": 1, "audio_count": 2}"#, &current, false),
        Some("FAIL disc-07                  (2 diffs)".to_string())
    );
    assert_eq!((h.pass, h.fail, h.no_snapshot, h.updated), (1, 4, 1, 1));
    assert_eq!(
        h.closing_text(),
        "\nSummary: 1 pass, 4 fail, 1 missing snapshot (7 total)\n\n\
         \x20 --- disc-06 ---\n  parser: want=\"q\" got=\"p\"\n\
         \x20 --- disc-07 ---\n  parser: want=1 got=\"p\"\n  audio_count: want=2 got=<missing>\n"
    );
    assert_eq!(h.verdict(), Err("4 regressions".to_string()));
}

#[test]
fn a_clean_check_ends_well() {
    let mut h = harness(2);
    h.snapshot_missing("a", "a.snapshot.json");
    h.check_snapshot("b", "b.snapshot.json", "{}", &json("{}"), false);
    assert_eq!(h.closing_text(), "\nSummary: 1 pass, 0 fail, 1 missing snapshot (2 total)\n");
    assert_eq!(h.verdict(), Ok(()));
    let mut h = harness(1);
    h.analysis_failed("a", "open");
    assert_eq!(h.verdict(), Err("1 regression".to_string()));
}

#[test]
fn a_difference_that_cannot_be_cut_gives_no_line() {
    let mut h = harness(1);
    let snapshot = format!("{{\"parser\": \"{}\"}}", "é".repeat(50));
    assert_eq!(h.check_snapshot("a", "s", &snapshot, &json("{}"), false), None);
    assert_eq!((h.pass, h.fail), (0, 0));
}

#[test]
fn a_blessed_snapshot_passes() {
    let analysis = Analysis {
        parser: Some("criterion \"x\"\n".to_string()),
        confidence: Some("High".to_string()),
        parsers_detected: vec!["criterion".to_string()],
        labels: vec![],
        jar_inventory: vec!["é.bin".to_string()],
    };
    let text = snapshot_text(&analysis);
    let mut h = harness(2);
    for exact in [true, false] {
        assert_eq!(
            h.check_snapshot("d", "s", &text, &build_analysis_json(&analysis), exact),
            Some("PASS d".to_string())
        );
    }
    assert_eq!(h.pass, 2);
}
