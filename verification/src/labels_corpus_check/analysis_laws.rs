//! What the document of an analysis says.

use vstd::prelude::*;

use crate::json::lookup;
use crate::json::JsonView;
use crate::json_laws::law_built_objects_hold_the_list;
use crate::labels_corpus_check::analysis::analysis_json;
use crate::labels_corpus_check::analysis::analysis_members;
use crate::labels_corpus_check::analysis::Analysis;
use crate::stream_label::label_json;
use crate::stream_label::StreamLabel;
use crate::stream_label::StreamLabelType;
use crate::stream_label_laws::law_labels_of_a_kind_are_counted;
use crate::text::texts;

verus! {

/// Whether a value is the array of a list of texts, each in its place.
pub open spec fn lists_texts(value: Option<JsonView>, list: Seq<String>) -> bool {
    value matches Some(JsonView::Array(items)) && items.len() == list.len() && forall|i: int|
        0 <= i < list.len() ==> #[trigger] items[i] == JsonView::Text(list[i]@)
}

/// Whether a value is the array of the documents of labels, each in its place.
pub open spec fn lists_labels(value: Option<JsonView>, labels: Seq<StreamLabel>) -> bool {
    value matches Some(JsonView::Array(items)) && items.len() == labels.len() && forall|i: int|
        0 <= i < labels.len() ==> #[trigger] items[i] == label_json(labels[i])
}

proof fn lemma_analysis_keys_differ()
    ensures
        "parser"@.len() == 6 && "parser"@[0] == 'p',
        "confidence"@.len() == 10,
        "parsers_detected"@.len() == 16,
        "audio_count"@.len() == 11,
        "subtitle_count"@.len() == 14,
        "labels"@.len() == 6 && "labels"@[0] == 'l',
        "jar_inventory"@.len() == 13,
{
    reveal_strlit("parser");
    reveal_strlit("confidence");
    reveal_strlit("parsers_detected");
    reveal_strlit("audio_count");
    reveal_strlit("subtitle_count");
    reveal_strlit("labels");
    reveal_strlit("jar_inventory");
}

/// The document of an analysis says which parser matched and how sure it is, or null, which parsers
/// saw something, how many labels there are of each kind, the labels and the inventory; and nothing
/// else.
pub proof fn law_analysis_document_says_each_finding(analysis: Analysis)
    ensures
        analysis.parser matches Some(name) ==> lookup(analysis_json(analysis), "parser"@) == Some(
            JsonView::Text(name@),
        ),
        analysis.parser is None ==> lookup(analysis_json(analysis), "parser"@) == Some(
            JsonView::Null,
        ),
        analysis.confidence matches Some(word) ==> lookup(analysis_json(analysis), "confidence"@)
            == Some(JsonView::Text(word@)),
        analysis.confidence is None ==> lookup(analysis_json(analysis), "confidence"@) == Some(
            JsonView::Null,
        ),
        lists_texts(
            lookup(analysis_json(analysis), "parsers_detected"@),
            analysis.parsers_detected@,
        ),
        lookup(analysis_json(analysis), "audio_count"@) == Some(
            JsonView::Integer(
                analysis.labels@.filter(
                    |label: StreamLabel| label.stream_type == StreamLabelType::Audio,
                ).len() as int,
            ),
        ),
        lookup(analysis_json(analysis), "subtitle_count"@) == Some(
            JsonView::Integer(
                analysis.labels@.filter(
                    |label: StreamLabel| label.stream_type == StreamLabelType::Subtitle,
                ).len() as int,
            ),
        ),
        lists_labels(lookup(analysis_json(analysis), "labels"@), analysis.labels@),
        lists_texts(lookup(analysis_json(analysis), "jar_inventory"@), analysis.jar_inventory@),
        forall|key: Seq<char>| #[trigger]
            lookup(analysis_json(analysis), key) is Some ==> key == "parser"@ || key
                == "confidence"@ || key == "parsers_detected"@ || key == "audio_count"@ || key
                == "subtitle_count"@ || key == "labels"@ || key == "jar_inventory"@,
{
    lemma_analysis_keys_differ();
    let list = analysis_members(analysis);
    assert forall|i: int, j: int| 0 <= i < j < list.len() implies (#[trigger] list[i]).0 != (
    #[trigger] list[j]).0 by {}
    law_built_objects_hold_the_list(list);
    law_labels_of_a_kind_are_counted(analysis.labels@, StreamLabelType::Audio);
    law_labels_of_a_kind_are_counted(analysis.labels@, StreamLabelType::Subtitle);
    let audio = |label: StreamLabel| label.stream_type == StreamLabelType::Audio;
    let subtitle = |label: StreamLabel| label.stream_type == StreamLabelType::Subtitle;
    assert(list[0].0 == "parser"@);
    assert(list[1].0 == "confidence"@);
    assert(list[2].0 == "parsers_detected"@);
    assert(list[3].0 == "audio_count"@);
    assert(list[4].0 == "subtitle_count"@);
    assert(list[5].0 == "labels"@);
    assert(list[6].0 == "jar_inventory"@);
    assert(forall|i: int|
        0 <= i < analysis.parsers_detected@.len() ==> #[trigger] texts(
            analysis.parsers_detected@,
        )[i] == analysis.parsers_detected@[i]@);
    assert(forall|i: int|
        0 <= i < analysis.jar_inventory@.len() ==> #[trigger] texts(analysis.jar_inventory@)[i]
            == analysis.jar_inventory@[i]@);
}

} // verus!
