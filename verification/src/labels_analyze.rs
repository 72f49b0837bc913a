//! Diagnostic report on what the label parsers make of a disc image.

pub mod report_laws;

use vstd::prelude::*;

use crate::json::json_optional;
use crate::json::json_pretty;
use crate::json::json_texts;
use crate::json::json_views;
use crate::json::lemma_array_view;
use crate::json::named_views;
use crate::json::object_from;
use crate::json::object_of;
use crate::json::optional_json;
use crate::json::texts_json;
use crate::json::Json;
use crate::json::JsonView;
use crate::json_value::to_pretty;
use crate::labels_corpus_check::analysis::Analysis;
use crate::stream_label::count_labels;
use crate::stream_label::count_of;
use crate::stream_label::json_labels;
use crate::stream_label::labels_json;
use crate::stream_label::raw_codes;
use crate::stream_label::raw_codes_of;
use crate::stream_label::StreamLabelType;
use crate::text::same_text;
use crate::text::texts;

verus! {

/// How the report is used.
pub const HELP: &'static str = "freemkv-tools labels-analyze — diagnostic for the libfreemkv label parsers

Usage: freemkv-tools labels-analyze <image>

  <image>   disc image file (1 GB head-of-disc capture, full ISO,
            or any file libfreemkv's FileSectorSource can mount)

Output: JSON to stdout. Fields: parser (matched parser name or null),
audio_count, subtitle_count, jar_inventory (filenames seen under
/BDMV/JAR/*/), raw_codes (unique codec/variant strings), labels (per-
stream detail).

Pipe to a per-disc file then aggregate into a corpus coverage report:
  freemkv-tools labels-analyze disc-07.bin > disc-07.json";

/// How the report is used.
pub fn help_text() -> (text: &'static str)
    ensures
        text@ == HELP@,
{
    HELP
}

/// What is known of a disc as a whole: its titles and descriptions by language, and its place in a
/// set of discs.
pub struct DiscMetadata {
    pub titles: Json,
    pub descriptions: Json,
    pub disc_number: Option<(u64, u64)>,
}

/// The chapters of one playlist.
pub struct ChapterSummary {
    pub playlist: String,
    pub chapter_count: u64,
    pub duration_secs: Json,
}

/// How far the two sources of stream information agree, in numbers of streams.
pub struct AuditCounts {
    pub matches: u64,
    pub clpi_only: u64,
    pub mpls_only: u64,
    pub divergent: u64,
    pub total_pids: u64,
}

/// All that the report on a disc image is made from.
pub struct Findings {
    pub image_path: String,
    pub analysis: Analysis,
    pub disc_metadata: Option<DiscMetadata>,
    pub gap_fill_added: Json,
    pub chapter_summary: Vec<ChapterSummary>,
    pub audit: AuditCounts,
}

/// A place in a set of discs as a JSON value.
pub open spec fn disc_number_json(disc_number: Option<(u64, u64)>) -> JsonView {
    match disc_number {
        Some((n, total)) => JsonView::Array(
            seq![JsonView::Integer(n as int), JsonView::Integer(total as int)],
        ),
        None => JsonView::Null,
    }
}

/// What is known of a disc as a whole as a JSON value.
pub open spec fn metadata_json(metadata: Option<DiscMetadata>) -> JsonView {
    match metadata {
        Some(m) => object_of(
            seq![
                ("titles"@, m.titles@),
                ("descriptions"@, m.descriptions@),
                ("disc_number"@, disc_number_json(m.disc_number)),
            ],
        ),
        None => JsonView::Null,
    }
}

/// The chapters of one playlist as a JSON object.
pub open spec fn chapter_json(chapter: ChapterSummary) -> JsonView {
    object_of(
        seq![
            ("playlist"@, JsonView::Text(chapter.playlist@)),
            ("chapter_count"@, JsonView::Integer(chapter.chapter_count as int)),
            ("duration_secs"@, chapter.duration_secs@),
        ],
    )
}

/// The chapters of every playlist as a JSON array.
pub open spec fn chapters_json(chapters: Seq<ChapterSummary>) -> JsonView {
    JsonView::Array(chapters.map_values(|chapter: ChapterSummary| chapter_json(chapter)))
}

/// The audit as a JSON object.
pub open spec fn audit_json(audit: AuditCounts) -> JsonView {
    object_of(
        seq![
            ("matches"@, JsonView::Integer(audit.matches as int)),
            ("clpi_only"@, JsonView::Integer(audit.clpi_only as int)),
            ("mpls_only"@, JsonView::Integer(audit.mpls_only as int)),
            ("divergent"@, JsonView::Integer(audit.divergent as int)),
            ("total_pids"@, JsonView::Integer(audit.total_pids as int)),
        ],
    )
}

/// The members of the report.
pub open spec fn report_members(findings: Findings) -> Seq<(Seq<char>, JsonView)> {
    seq![
        ("image_path"@, JsonView::Text(findings.image_path@)),
        ("parser"@, optional_json(findings.analysis.parser)),
        ("confidence"@, optional_json(findings.analysis.confidence)),
        ("parsers_detected"@, texts_json(texts(findings.analysis.parsers_detected@))),
        (
            "audio_count"@,
            JsonView::Integer(count_of(findings.analysis.labels@, StreamLabelType::Audio) as int),
        ),
        (
            "subtitle_count"@,
            JsonView::Integer(
                count_of(findings.analysis.labels@, StreamLabelType::Subtitle) as int,
            ),
        ),
        ("jar_inventory"@, texts_json(texts(findings.analysis.jar_inventory@))),
        ("raw_codes"@, texts_json(raw_codes_of(findings.analysis.labels@))),
        ("labels"@, labels_json(findings.analysis.labels@)),
        ("disc_metadata"@, metadata_json(findings.disc_metadata)),
        ("gap_fill_added"@, findings.gap_fill_added@),
        ("chapter_summary"@, chapters_json(findings.chapter_summary@)),
        ("clpi_vs_mpls_audit"@, audit_json(findings.audit)),
    ]
}

/// The report on a disc image as a JSON object.
pub open spec fn report_json(findings: Findings) -> JsonView {
    object_of(report_members(findings))
}

fn json_disc_number(disc_number: Option<(u64, u64)>) -> (json: Json)
    ensures
        json@ == disc_number_json(disc_number),
{
    match disc_number {
        Some((n, total)) => {
            let items: Vec<Json> = vec![Json::Unsigned(n), Json::Unsigned(total)];
            proof {
                lemma_array_view(items);
                assert(json_views(items@) =~= disc_number_json(disc_number)->Array_0);
            }
            Json::Array(items)
        },
        None => Json::Null,
    }
}

fn json_metadata(metadata: Option<DiscMetadata>) -> (json: Json)
    ensures
        json@ == metadata_json(metadata),
{
    match metadata {
        Some(m) => {
            let members: Vec<(&str, Json)> = vec![
                ("titles", m.titles),
                ("descriptions", m.descriptions),
                ("disc_number", json_disc_number(m.disc_number)),
            ];
            assert(named_views(members@) =~= seq![
                ("titles"@, m.titles@),
                ("descriptions"@, m.descriptions@),
                ("disc_number"@, disc_number_json(m.disc_number)),
            ]);
            object_from(members)
        },
        None => Json::Null,
    }
}

fn json_chapter(chapter: ChapterSummary) -> (json: Json)
    ensures
        json@ == chapter_json(chapter),
{
    let members: Vec<(&str, Json)> = vec![
        ("playlist", Json::Text(chapter.playlist)),
        ("chapter_count", Json::Unsigned(chapter.chapter_count)),
        ("duration_secs", chapter.duration_secs),
    ];
    assert(named_views(members@) =~= seq![
        ("playlist"@, JsonView::Text(chapter.playlist@)),
        ("chapter_count"@, JsonView::Integer(chapter.chapter_count as int)),
        ("duration_secs"@, chapter.duration_secs@),
    ]);
    object_from(members)
}

fn json_chapters(chapters: Vec<ChapterSummary>) -> (json: Json)
    ensures
        json@ == chapters_json(chapters@),
{
    let ghost all = chapters@;
    let mut items: Vec<Json> = Vec::new();
    for chapter in it: chapters.into_iter()
        invariant
            it.seq() == all,
            items@.len() == it.index(),
            forall|k: int| 0 <= k < it.index() ==> (#[trigger] items@[k])@ == chapter_json(all[k]),
    {
        items.push(json_chapter(chapter));
    }
    proof {
        lemma_array_view(items);
        assert(json_views(items@) =~= all.map_values(
            |chapter: ChapterSummary| chapter_json(chapter),
        ));
    }
    Json::Array(items)
}

fn json_audit(audit: &AuditCounts) -> (json: Json)
    ensures
        json@ == audit_json(*audit),
{
    let members: Vec<(&str, Json)> = vec![
        ("matches", Json::Unsigned(audit.matches)),
        ("clpi_only", Json::Unsigned(audit.clpi_only)),
        ("mpls_only", Json::Unsigned(audit.mpls_only)),
        ("divergent", Json::Unsigned(audit.divergent)),
        ("total_pids", Json::Unsigned(audit.total_pids)),
    ];
    assert(named_views(members@) =~= seq![
        ("matches"@, JsonView::Integer(audit.matches as int)),
        ("clpi_only"@, JsonView::Integer(audit.clpi_only as int)),
        ("mpls_only"@, JsonView::Integer(audit.mpls_only as int)),
        ("divergent"@, JsonView::Integer(audit.divergent as int)),
        ("total_pids"@, JsonView::Integer(audit.total_pids as int)),
    ]);
    object_from(members)
}

/// The report on a disc image as a JSON object.
pub fn build_report(findings: Findings) -> (json: Json)
    ensures
        json@ == report_json(findings),
{
    let ghost expected = report_members(findings);
    let analysis: &Analysis = &findings.analysis;
    let members: Vec<(&str, Json)> = vec![
        ("image_path", Json::Text(findings.image_path)),
        ("parser", json_optional(&analysis.parser)),
        ("confidence", json_optional(&analysis.confidence)),
        ("parsers_detected", json_texts(&analysis.parsers_detected)),
        (
            "audio_count",
            Json::Unsigned(count_labels(&analysis.labels, StreamLabelType::Audio) as u64),
        ),
        (
            "subtitle_count",
            Json::Unsigned(count_labels(&analysis.labels, StreamLabelType::Subtitle) as u64),
        ),
        ("jar_inventory", json_texts(&analysis.jar_inventory)),
        ("raw_codes", json_texts(&raw_codes(&analysis.labels))),
        ("labels", json_labels(&analysis.labels)),
        ("disc_metadata", json_metadata(findings.disc_metadata)),
        ("gap_fill_added", findings.gap_fill_added),
        ("chapter_summary", json_chapters(findings.chapter_summary)),
        ("clpi_vs_mpls_audit", json_audit(&findings.audit)),
    ];
    assert(named_views(members@) =~= expected);
    object_from(members)
}

/// The text of the report on a disc image.
pub fn report_text(findings: Findings) -> (text: String)
    ensures
        text@ == json_pretty(report_json(findings), 0),
{
    to_pretty(&build_report(findings))
}

/// What a command line asks for: the help, where there is no argument or the first one asks for
/// it, or else the report on the image that the first argument names.
pub open spec fn asks_for_help(args: Seq<Seq<char>>) -> bool {
    args.len() == 0 || args[0] == "--help"@ || args[0] == "-h"@
}

/// The image to report on; none where the command line asks for help.
pub fn requested_image(argv: &[String]) -> (image: Option<&str>)
    ensures
        image is None <==> asks_for_help(texts(argv@)),
        image matches Some(path) ==> path@ == texts(argv@)[0],
{
    if argv.len() == 0 {
        return None;
    }
    assert(texts(argv@)[0] == argv@[0]@);
    let first: &str = argv[0].as_str();
    if same_text(first, "--help") || same_text(first, "-h") {
        None
    } else {
        Some(first)
    }
}

} // verus!
