use freemkv_tools::json::Json;
use freemkv_tools::json_value::parse_json;
use freemkv_tools::labels_corpus_check::diff::diff_exact;
use freemkv_tools::labels_corpus_check::diff::diff_structural;
use freemkv_tools::labels_corpus_check::options::Options;

fn json(text: &str) -> Json {
    match parse_json(text) {
        Ok(value) => value,
        Err(message) => panic!("{}", message),
    }
}

#[test]
fn diff_structural_clean_when_identical() {
    let v = json(
        r#"{
            "parser": "pixelogic",
            "parsers_detected": ["pixelogic"],
            "audio_count": 2,
            "subtitle_count": 1,
            "labels": [
                {"stream_number": 1, "stream_type": "audio", "language": "eng", "name": "",
                 "codec_hint": "TrueHD", "variant": "", "purpose": "Normal", "qualifier": "None"},
                {"stream_number": 2, "stream_type": "audio", "language": "spa", "name": "",
                 "codec_hint": "Dolby Digital", "variant": "", "purpose": "Normal", "qualifier": "None"},
                {"stream_number": 1, "stream_type": "subtitle", "language": "eng", "name": "",
                 "codec_hint": "", "variant": "", "purpose": "Normal", "qualifier": "Sdh"}
            ],
            "jar_inventory": ["bluray_project.bin", "playlists.xml"]
        }"#,
    );
    assert!(diff_structural(&v, &v).is_empty());
}

#[test]
fn diff_structural_ignores_jar_inventory_drift() {
    let want = json(
        r#"{
            "parser": "pixelogic", "parsers_detected": ["pixelogic"],
            "audio_count": 0, "subtitle_count": 0, "labels": [],
            "jar_inventory": ["foo.bin"]
        }"#,
    );
    let got = json(
        r#"{
            "parser": "pixelogic", "parsers_detected": ["pixelogic"],
            "audio_count": 0, "subtitle_count": 0, "labels": [],
            "jar_inventory": ["foo.bin", "bar.xml", "extra.txt"]
        }"#,
    );
    assert!(
        diff_structural(&want, &got).is_empty(),
        "structural diff should ignore jar_inventory"
    );
}

#[test]
fn diff_structural_catches_parser_change() {
    let want = json(
        r#"{
            "parser": "pixelogic", "parsers_detected": ["pixelogic"],
            "audio_count": 0, "subtitle_count": 0, "labels": []
        }"#,
    );
    let got = json(
        r#"{
            "parser": "criterion", "parsers_detected": ["criterion"],
            "audio_count": 0, "subtitle_count": 0, "labels": []
        }"#,
    );
    let diffs = diff_structural(&want, &got);
    assert!(diffs.iter().any(|d| d.starts_with("parser:")));
    assert!(diffs.iter().any(|d| d.starts_with("parsers_detected:")));
}

#[test]
fn diff_structural_catches_label_count_change() {
    let want = json(
        r#"{
            "parser": "p", "parsers_detected": ["p"],
            "audio_count": 2, "subtitle_count": 0,
            "labels": [
                {"stream_number": 1, "stream_type": "audio", "language": "eng", "name": "",
                 "codec_hint": "", "variant": "", "purpose": "Normal", "qualifier": "None"},
                {"stream_number": 2, "stream_type": "audio", "language": "spa", "name": "",
                 "codec_hint": "", "variant": "", "purpose": "Normal", "qualifier": "None"}
            ]
        }"#,
    );
    let got = json(
        r#"{
            "parser": "p", "parsers_detected": ["p"],
            "audio_count": 1, "subtitle_count": 0,
            "labels": [
                {"stream_number": 1, "stream_type": "audio", "language": "eng", "name": "",
                 "codec_hint": "", "variant": "", "purpose": "Normal", "qualifier": "None"}
            ]
        }"#,
    );
    let diffs = diff_structural(&want, &got);
    assert!(diffs.iter().any(|d| d.contains("audio_count")));
    assert!(diffs.iter().any(|d| d.contains("labels.len")));
}

#[test]
fn diff_structural_catches_language_drift() {
    // Same parser, same counts, but a language regressed.
    let want = json(
        r#"{
            "parser": "p", "parsers_detected": ["p"],
            "audio_count": 1, "subtitle_count": 0,
            "labels": [
                {"stream_number": 1, "stream_type": "audio", "language": "eng", "name": "",
                 "codec_hint": "", "variant": "", "purpose": "Normal", "qualifier": "None"}
            ]
        }"#,
    );
    let got = json(
        r#"{
            "parser": "p", "parsers_detected": ["p"],
            "audio_count": 1, "subtitle_count": 0,
            "labels": [
                {"stream_number": 1, "stream_type": "audio", "language": "", "name": "",
                 "codec_hint": "", "variant": "", "purpose": "Normal", "qualifier": "None"}
            ]
        }"#,
    );
    let diffs = diff_structural(&want, &got);
    assert!(
        diffs.iter().any(|d| d.contains("labels[0].language")),
        "expected language drift to be caught, got: {:?}",
        diffs
    );
}

#[test]
fn diff_structural_normalizes_label_order() {
    // Same labels in different order — should compare equal once
    // sorted by (stream_type, stream_number).
    let want = json(
        r#"{
            "parser": "p", "parsers_detected": ["p"],
            "audio_count": 2, "subtitle_count": 0,
            "labels": [
                {"stream_number": 1, "stream_type": "audio", "language": "eng", "name": "",
                 "codec_hint": "", "variant": "", "purpose": "Normal", "qualifier": "None"},
                {"stream_number": 2, "stream_type": "audio", "language": "spa", "name": "",
                 "codec_hint": "", "variant": "", "purpose": "Normal", "qualifier": "None"}
            ]
        }"#,
    );
    let got = json(
        r#"{
            "parser": "p", "parsers_detected": ["p"],
            "audio_count": 2, "subtitle_count": 0,
            "labels": [
                {"stream_number": 2, "stream_type": "audio", "language": "spa", "name": "",
                 "codec_hint": "", "variant": "", "purpose": "Normal", "qualifier": "None"},
                {"stream_number": 1, "stream_type": "audio", "language": "eng", "name": "",
                 "codec_hint": "", "variant": "", "purpose": "Normal", "qualifier": "None"}
            ]
        }"#,
    );
    assert!(diff_structural(&want, &got).is_empty());
}

#[test]
fn diff_exact_catches_jar_inventory_drift() {
    // What structural ignores, exact should catch.
    let want = json(r#"{"foo": ["a"]}"#);
    let got = json(r#"{"foo": ["a", "b"]}"#);
    assert!(!diff_exact(&want, &got).is_empty());
}

#[test]
fn options_parse_minimal() {
    let opts = Options::parse(&["/path/to/corpus".to_string()]).unwrap();
    assert_eq!(opts.corpus_dir, "/path/to/corpus");
    assert!(!opts.update);
    assert!(!opts.exact);
    assert!(opts.filter.is_none());
}

#[test]
fn options_parse_all_flags() {
    let opts = Options::parse(&[
        "/path".to_string(),
        "--update".to_string(),
        "--exact".to_string(),
        "--filter".to_string(),
        "disc-07".to_string(),
    ])
    .unwrap();
    assert!(opts.update);
    assert!(opts.exact);
    assert_eq!(opts.filter.as_deref(), Some("disc-07"));
}

#[test]
fn options_parse_filter_without_value_errors() {
    assert!(Options::parse(&["/p".to_string(), "--filter".to_string()]).is_err());
}
