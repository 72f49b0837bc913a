//! What the report on a disc image says.

use vstd::prelude::*;

use super::audit_json;
use super::chapter_json;
use super::metadata_json;
use super::report_json;
use super::report_members;
use super::AuditCounts;
use super::ChapterSummary;
use super::DiscMetadata;
use super::Findings;
use crate::json::lookup;
use crate::json::JsonView;
use crate::json_laws::law_built_objects_hold_the_list;
use crate::labels_corpus_check::analysis_laws::lists_labels;
use crate::labels_corpus_check::analysis_laws::lists_texts;
use crate::stream_label::raw_codes_of;
use crate::stream_label::StreamLabel;
use crate::stream_label::StreamLabelType;
use crate::stream_label_laws::law_labels_of_a_kind_are_counted;
use crate::text::texts;

verus! {

proof fn lemma_report_keys_differ()
    ensures
        "image_path"@.len() == 10 && "image_path"@[0] == 'i',
        "parser"@.len() == 6 && "parser"@[0] == 'p',
        "confidence"@.len() == 10 && "confidence"@[0] == 'c',
        "parsers_detected"@.len() == 16,
        "audio_count"@.len() == 11,
        "subtitle_count"@.len() == 14 && "subtitle_count"@[0] == 's',
        "jar_inventory"@.len() == 13 && "jar_inventory"@[0] == 'j',
        "raw_codes"@.len() == 9,
        "labels"@.len() == 6 && "labels"@[0] == 'l',
        "disc_metadata"@.len() == 13 && "disc_metadata"@[0] == 'd',
        "gap_fill_added"@.len() == 14 && "gap_fill_added"@[0] == 'g',
        "chapter_summary"@.len() == 15,
        "clpi_vs_mpls_audit"@.len() == 18,
{
    reveal_strlit("image_path");
    reveal_strlit("parser");
    reveal_strlit("confidence");
    reveal_strlit("parsers_detected");
    reveal_strlit("audio_count");
    reveal_strlit("subtitle_count");
    reveal_strlit("jar_inventory");
    reveal_strlit("raw_codes");
    reveal_strlit("labels");
    reveal_strlit("disc_metadata");
    reveal_strlit("gap_fill_added");
    reveal_strlit("chapter_summary");
    reveal_strlit("clpi_vs_mpls_audit");
}

/// The members of the report stand under keys of their own, and so each key finds its member.
proof fn lemma_report_finds_its_members(findings: Findings)
    ensures
        forall|i: int|
            0 <= i < report_members(findings).len() ==> lookup(
                report_json(findings),
                (#[trigger] report_members(findings)[i]).0,
            ) == Some(report_members(findings)[i].1),
        forall|key: Seq<char>| #[trigger]
            lookup(report_json(findings), key) is Some ==> exists|i: int|
                0 <= i < report_members(findings).len() && (#[trigger] report_members(findings)[i]).0
                    == key,
{
    lemma_report_keys_differ();
    let list = report_members(findings);
    assert forall|i: int, j: int| 0 <= i < j < list.len() implies (#[trigger] list[i]).0 != (
    #[trigger] list[j]).0 by {}
    law_built_objects_hold_the_list(list);
}

/// The report names the image, the parser that matched and how sure it is, each null where there is
/// none, and the parsers that saw something.
pub proof fn law_report_names_the_parser(findings: Findings)
    ensures
        lookup(report_json(findings), "image_path"@) == Some(JsonView::Text(findings.image_path@)),
        findings.analysis.parser matches Some(name) ==> lookup(report_json(findings), "parser"@)
            == Some(JsonView::Text(name@)),
        findings.analysis.parser is None ==> lookup(report_json(findings), "parser"@) == Some(
            JsonView::Null,
        ),
        findings.analysis.confidence matches Some(word) ==> lookup(
            report_json(findings),
            "confidence"@,
        ) == Some(JsonView::Text(word@)),
        findings.analysis.confidence is None ==> lookup(report_json(findings), "confidence"@)
            == Some(JsonView::Null),
        lists_texts(
            lookup(report_json(findings), "parsers_detected"@),
            findings.analysis.parsers_detected@,
        ),
        lists_texts(
            lookup(report_json(findings), "jar_inventory"@),
            findings.analysis.jar_inventory@,
        ),
{
    lemma_report_finds_its_members(findings);
    let list = report_members(findings);
    assert(list[0].0 == "image_path"@);
    assert(list[1].0 == "parser"@);
    assert(list[2].0 == "confidence"@);
    assert(list[3].0 == "parsers_detected"@);
    assert(list[6].0 == "jar_inventory"@);
    let detected = findings.analysis.parsers_detected@;
    let inventory = findings.analysis.jar_inventory@;
    assert(forall|i: int|
        0 <= i < detected.len() ==> #[trigger] texts(detected)[i] == detected[i]@);
    assert(forall|i: int|
        0 <= i < inventory.len() ==> #[trigger] texts(inventory)[i] == inventory[i]@);
}

/// The report counts the labels of each kind, lists them in their places, and lists their raw codes.
pub proof fn law_report_lists_the_labels(findings: Findings)
    ensures
        lookup(report_json(findings), "audio_count"@) == Some(
            JsonView::Integer(
                findings.analysis.labels@.filter(
                    |label: StreamLabel| label.stream_type == StreamLabelType::Audio,
                ).len() as int,
            ),
        ),
        lookup(report_json(findings), "subtitle_count"@) == Some(
            JsonView::Integer(
                findings.analysis.labels@.filter(
                    |label: StreamLabel| label.stream_type == StreamLabelType::Subtitle,
                ).len() as int,
            ),
        ),
        lists_labels(lookup(report_json(findings), "labels"@), findings.analysis.labels@),
        lookup(report_json(findings), "raw_codes"@) matches Some(JsonView::Array(items))
            && items.len() == raw_codes_of(findings.analysis.labels@).len() && forall|i: int|
            0 <= i < items.len() ==> #[trigger] items[i] == JsonView::Text(
                raw_codes_of(findings.analysis.labels@)[i],
            ),
{
    lemma_report_finds_its_members(findings);
    let list = report_members(findings);
    let labels = findings.analysis.labels@;
    law_labels_of_a_kind_are_counted(labels, StreamLabelType::Audio);
    law_labels_of_a_kind_are_counted(labels, StreamLabelType::Subtitle);
    assert(list[4].0 == "audio_count"@);
    assert(list[5].0 == "subtitle_count"@);
    assert(list[7].0 == "raw_codes"@);
    assert(list[8].0 == "labels"@);
}

/// The report holds what is known of the disc as a whole, or null, what was filled in, the chapters
/// of every playlist in their places, and the audit; and it has no members but these.
pub proof fn law_report_holds_the_rest(findings: Findings)
    ensures
        findings.disc_metadata is None ==> lookup(report_json(findings), "disc_metadata"@) == Some(
            JsonView::Null,
        ),
        lookup(report_json(findings), "disc_metadata"@) == Some(
            metadata_json(findings.disc_metadata),
        ),
        lookup(report_json(findings), "gap_fill_added"@) == Some(findings.gap_fill_added@),
        lookup(report_json(findings), "chapter_summary"@) matches Some(JsonView::Array(items))
            && items.len() == findings.chapter_summary@.len() && forall|i: int|
            0 <= i < items.len() ==> #[trigger] items[i] == chapter_json(
                findings.chapter_summary@[i],
            ),
        lookup(report_json(findings), "clpi_vs_mpls_audit"@) == Some(audit_json(findings.audit)),
        forall|key: Seq<char>| #[trigger]
            lookup(report_json(findings), key) is Some ==> key == "image_path"@ || key == "parser"@
                || key == "confidence"@ || key == "parsers_detected"@ || key == "audio_count"@
                || key == "subtitle_count"@ || key == "jar_inventory"@ || key == "raw_codes"@ || key
                == "labels"@ || key == "disc_metadata"@ || key == "gap_fill_added"@ || key
                == "chapter_summary"@ || key == "clpi_vs_mpls_audit"@,
{
    lemma_report_finds_its_members(findings);
    let list = report_members(findings);
    assert(list[9].0 == "disc_metadata"@);
    assert(list[10].0 == "gap_fill_added"@);
    assert(list[11].0 == "chapter_summary"@);
    assert(list[12].0 == "clpi_vs_mpls_audit"@);
}

/// What is known of a disc as a whole is written as its titles, its descriptions and its place in a
/// set: the number and the total, or null.
pub proof fn law_metadata_says_each_field(metadata: DiscMetadata)
    ensures
        lookup(metadata_json(Some(metadata)), "titles"@) == Some(metadata.titles@),
        lookup(metadata_json(Some(metadata)), "descriptions"@) == Some(metadata.descriptions@),
        metadata.disc_number matches Some((n, total)) ==> lookup(
            metadata_json(Some(metadata)),
            "disc_number"@,
        ) == Some(
            JsonView::Array(seq![JsonView::Integer(n as int), JsonView::Integer(total as int)]),
        ),
        metadata.disc_number is None ==> lookup(metadata_json(Some(metadata)), "disc_number"@)
            == Some(JsonView::Null),
        forall|key: Seq<char>| #[trigger]
            lookup(metadata_json(Some(metadata)), key) is Some ==> key == "titles"@ || key
                == "descriptions"@ || key == "disc_number"@,
{
    reveal_strlit("titles");
    reveal_strlit("descriptions");
    reveal_strlit("disc_number");
    assert("titles"@.len() == 6 && "descriptions"@.len() == 12 && "disc_number"@.len() == 11);
    let list = seq![
        ("titles"@, metadata.titles@),
        ("descriptions"@, metadata.descriptions@),
        ("disc_number"@, super::disc_number_json(metadata.disc_number)),
    ];
    law_built_objects_hold_the_list(list);
    assert(list[0].0 == "titles"@);
    assert(list[1].0 == "descriptions"@);
    assert(list[2].0 == "disc_number"@);
}

/// The chapters of a playlist are written as its name, their number and their duration.
pub proof fn law_chapters_say_each_field(chapter: ChapterSummary)
    ensures
        lookup(chapter_json(chapter), "playlist"@) == Some(JsonView::Text(chapter.playlist@)),
        lookup(chapter_json(chapter), "chapter_count"@) == Some(
            JsonView::Integer(chapter.chapter_count as int),
        ),
        lookup(chapter_json(chapter), "duration_secs"@) == Some(chapter.duration_secs@),
        forall|key: Seq<char>| #[trigger]
            lookup(chapter_json(chapter), key) is Some ==> key == "playlist"@ || key
                == "chapter_count"@ || key == "duration_secs"@,
{
    reveal_strlit("playlist");
    reveal_strlit("chapter_count");
    reveal_strlit("duration_secs");
    assert("playlist"@.len() == 8);
    assert("chapter_count"@[0] == 'c' && "duration_secs"@[0] == 'd');
    assert("chapter_count"@.len() == 13 && "duration_secs"@.len() == 13);
    let list = seq![
        ("playlist"@, JsonView::Text(chapter.playlist@)),
        ("chapter_count"@, JsonView::Integer(chapter.chapter_count as int)),
        ("duration_secs"@, chapter.duration_secs@),
    ];
    law_built_objects_hold_the_list(list);
    assert(list[0].0 == "playlist"@);
    assert(list[1].0 == "chapter_count"@);
    assert(list[2].0 == "duration_secs"@);
}

/// The audit is written as the number of streams of each class and of all.
pub proof fn law_audit_says_each_count(audit: AuditCounts)
    ensures
        lookup(audit_json(audit), "matches"@) == Some(JsonView::Integer(audit.matches as int)),
        lookup(audit_json(audit), "clpi_only"@) == Some(JsonView::Integer(audit.clpi_only as int)),
        lookup(audit_json(audit), "mpls_only"@) == Some(JsonView::Integer(audit.mpls_only as int)),
        lookup(audit_json(audit), "divergent"@) == Some(JsonView::Integer(audit.divergent as int)),
        lookup(audit_json(audit), "total_pids"@) == Some(
            JsonView::Integer(audit.total_pids as int),
        ),
        forall|key: Seq<char>| #[trigger]
            lookup(audit_json(audit), key) is Some ==> key == "matches"@ || key == "clpi_only"@
                || key == "mpls_only"@ || key == "divergent"@ || key == "total_pids"@,
{
    reveal_strlit("matches");
    reveal_strlit("clpi_only");
    reveal_strlit("mpls_only");
    reveal_strlit("divergent");
    reveal_strlit("total_pids");
    assert("matches"@.len() == 7 && "total_pids"@.len() == 10);
    assert("clpi_only"@.len() == 9 && "clpi_only"@[0] == 'c');
    assert("mpls_only"@.len() == 9 && "mpls_only"@[0] == 'm');
    assert("divergent"@.len() == 9 && "divergent"@[0] == 'd');
    let list = seq![
        ("matches"@, JsonView::Integer(audit.matches as int)),
        ("clpi_only"@, JsonView::Integer(audit.clpi_only as int)),
        ("mpls_only"@, JsonView::Integer(audit.mpls_only as int)),
        ("divergent"@, JsonView::Integer(audit.divergent as int)),
        ("total_pids"@, JsonView::Integer(audit.total_pids as int)),
    ];
    law_built_objects_hold_the_list(list);
    assert(list[0].0 == "matches"@);
    assert(list[1].0 == "clpi_only"@);
    assert(list[2].0 == "mpls_only"@);
    assert(list[3].0 == "divergent"@);
    assert(list[4].0 == "total_pids"@);
}

/// A command line asks for help exactly if it is empty or starts with `--help` or `-h`.
pub proof fn law_help_is_asked_for(args: Seq<Seq<char>>)
    ensures
        super::asks_for_help(args) <==> args.len() == 0 || args[0] == "--help"@ || args[0] == "-h"@,
{
}

} // verus!
