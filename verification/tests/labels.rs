use freemkv_tools::json::Json;
use freemkv_tools::json_value::parse_json;
use freemkv_tools::json_value::to_text;
use freemkv_tools::labels_analyze;
use freemkv_tools::labels_analyze::build_report;
use freemkv_tools::labels_analyze::report_text;
use freemkv_tools::labels_analyze::requested_image;
use freemkv_tools::labels_analyze::AuditCounts;
use freemkv_tools::labels_analyze::ChapterSummary;
use freemkv_tools::labels_analyze::DiscMetadata;
use freemkv_tools::labels_analyze::Findings;
use freemkv_tools::labels_corpus_check;
use freemkv_tools::labels_corpus_check::analysis::build_analysis_json;
use freemkv_tools::labels_corpus_check::analysis::snapshot_text;
use freemkv_tools::labels_corpus_check::analysis::Analysis;
use freemkv_tools::stream_label::count_labels;
use freemkv_tools::stream_label::json_label;
use freemkv_tools::stream_label::raw_codes;
use freemkv_tools::stream_label::StreamLabel;
use freemkv_tools::stream_label::StreamLabelType;

fn label(number: u64, stream_type: StreamLabelType, codec: &str, variant: &str) -> StreamLabel {
    StreamLabel {
        stream_number: number,
        stream_type,
        language: "eng".to_string(),
        name: "".to_string(),
        codec_hint: codec.to_string(),
        variant: variant.to_string(),
        purpose: "Normal".to_string(),
        qualifier: "None".to_string(),
    }
}

fn labels() -> Vec<StreamLabel> {
    vec![
        label(1, StreamLabelType::Audio, "TrueHD", "Atmos"),
        label(2, StreamLabelType::Audio, "AC3", ""),
        label(1, StreamLabelType::Subtitle, "", "TrueHD"),
        label(3, StreamLabelType::Audio, "AC3", "AC3"),
    ]
}

fn analysis() -> Analysis {
    Analysis {
        parser: Some("pixelogic".to_string()),
        confidence: None,
        parsers_detected: vec!["pixelogic".to_string()],
        labels: vec![label(1, StreamLabelType::Audio, "TrueHD", "")],
        jar_inventory: vec!["a.bin".to_string(), "b.xml".to_string()],
    }
}

#[test]
fn labels_are_counted_by_kind() {
    assert_eq!(count_labels(&labels(), StreamLabelType::Audio), 3);
    assert_eq!(count_labels(&labels(), StreamLabelType::Subtitle), 1);
    assert_eq!(count_labels(&vec![], StreamLabelType::Audio), 0);
}

#[test]
fn raw_codes_are_listed_once_as_first_seen() {
    assert_eq!(raw_codes(&labels()), vec!["TrueHD", "Atmos", "AC3"]);
    assert!(raw_codes(&vec![]).is_empty());
}

#[test]
fn a_label_is_an_object() {
    assert_eq!(
        to_text(&json_label(&label(7, StreamLabelType::Subtitle, "PGS", "x"))),
        concat_label("PGS", "7", "subtitle", "x")
    );
}

fn concat_label(codec: &str, number: &str, kind: &str, variant: &str) -> String {
    format!(
        "{{\"codec_hint\":\"{}\",\"language\":\"eng\",\"name\":\"\",\"purpose\":\"Normal\",\
         \"qualifier\":\"None\",\"stream_number\":{},\"stream_type\":\"{}\",\"variant\":\"{}\"}}",
        codec, number, kind, variant
    )
}

#[test]
fn an_analysis_is_a_document() {
    assert_eq!(
        to_text(&build_analysis_json(&analysis())),
        format!(
            "{{\"audio_count\":1,\"confidence\":null,\"jar_inventory\":[\"a.bin\",\"b.xml\"],\
             \"labels\":[{}],\"parser\":\"pixelogic\",\"parsers_detected\":[\"pixelogic\"],\
             \"subtitle_count\":0}}",
            concat_label("TrueHD", "1", "audio", "")
        )
    );
}

#[test]
fn a_snapshot_reads_back_as_the_document() {
    let text = snapshot_text(&analysis());
    assert!(text.starts_with("{\n  \"audio_count\": 1,\n  \"confidence\": null,\n"));
    let read = match parse_json(&text) {
        Ok(read) => read,
        Err(message) => panic!("{}", message),
    };
    assert!(read.same(&build_analysis_json(&analysis())));
}

fn findings(metadata: Option<DiscMetadata>) -> Findings {
    Findings {
        image_path: "disc-07.bin".to_string(),
        analysis: Analysis {
            parser: None,
            confidence: Some("High".to_string()),
            parsers_detected: vec![],
            labels: vec![label(1, StreamLabelType::Subtitle, "PGS", "")],
            jar_inventory: vec![],
        },
        disc_metadata: metadata,
        gap_fill_added: Json::Unsigned(2),
        chapter_summary: vec![ChapterSummary {
            playlist: "00800.mpls".to_string(),
            chapter_count: 24,
            duration_secs: match parse_json("7260.5") {
                Ok(number) => number,
                Err(message) => panic!("{}", message),
            },
        }],
        audit: AuditCounts { matches: 4, clpi_only: 1, mpls_only: 2, divergent: 3, total_pids: 10 },
    }
}

#[test]
fn the_report_holds_all_findings() {
    let metadata = DiscMetadata {
        titles: Json::Array(vec![]),
        descriptions: Json::Null,
        disc_number: Some((1, 2)),
    };
    assert_eq!(
        to_text(&build_report(findings(Some(metadata)))),
        format!(
            "{{\"audio_count\":0,\"chapter_summary\":[{{\"chapter_count\":24,\
             \"duration_secs\":7260.5,\"playlist\":\"00800.mpls\"}}],\
             \"clpi_vs_mpls_audit\":{{\"clpi_only\":1,\"divergent\":3,\"matches\":4,\
             \"mpls_only\":2,\"total_pids\":10}},\"confidence\":\"High\",\
             \"disc_metadata\":{{\"descriptions\":null,\"disc_number\":[1,2],\"titles\":[]}},\
             \"gap_fill_added\":2,\"image_path\":\"disc-07.bin\",\"jar_inventory\":[],\
             \"labels\":[{}],\"parser\":null,\"parsers_detected\":[],\"raw_codes\":[\"PGS\"],\
             \"subtitle_count\":1}}",
            concat_label("PGS", "1", "subtitle", "")
        )
    );
}

#[test]
fn the_report_says_where_nothing_is_known() {
    let report = build_report(findings(None));
    assert!(matches!(report.get("disc_metadata"), Some(Json::Null)));
    let unnumbered =
        DiscMetadata { titles: Json::Null, descriptions: Json::Null, disc_number: None };
    let report = build_report(findings(Some(unnumbered)));
    let metadata = report.get("disc_metadata").unwrap();
    assert!(matches!(metadata.get("disc_number"), Some(Json::Null)));
}

#[test]
fn the_report_is_printed_line_by_line() {
    let text = report_text(findings(None));
    assert!(text.starts_with("{\n  \"audio_count\": 0,\n  \"chapter_summary\": [\n    {\n"));
    assert!(text.ends_with("  \"subtitle_count\": 1\n}"));
}

#[test]
fn the_report_needs_an_image() {
    assert_eq!(requested_image(&[]), None);
    assert_eq!(requested_image(&["--help".to_string()]), None);
    assert_eq!(requested_image(&["-h".to_string(), "x".to_string()]), None);
    assert_eq!(requested_image(&["x.iso".to_string(), "-h".to_string()]), Some("x.iso"));
}

#[test]
fn label_helps_are_whole() {
    assert!(labels_analyze::help_text().starts_with("freemkv-tools labels-analyze — diagnostic"));
    assert!(labels_analyze::help_text().ends_with("labels-analyze disc-07.bin > disc-07.json"));
    assert!(labels_corpus_check::help_text()
        .starts_with("freemkv-tools labels-corpus-check — regression harness"));
    assert!(labels_corpus_check::help_text().ends_with("labels-corpus/ --filter dune"));
}
