//! The analysis of a disc as a document, and the snapshot that is kept of it.

use vstd::prelude::*;

use crate::json::json_optional;
use crate::json::json_pretty;
use crate::json::json_texts;
use crate::json::members_of;
use crate::json::named_views;
use crate::json::object_from;
use crate::json::object_of;
use crate::json::optional_json;
use crate::json::put_member;
use crate::json::texts_json;
use crate::json::Json;
use crate::json::JsonView;
use crate::json_value::is_plain;
use crate::json_value::reads_as;
use crate::json_value::to_pretty;
use crate::order::text_before;
use crate::stream_label::count_labels;
use crate::stream_label::count_of;
use crate::stream_label::json_labels;
use crate::stream_label::label_json;
use crate::stream_label::label_members;
use crate::stream_label::labels_json;
use crate::stream_label::StreamLabel;
use crate::stream_label::StreamLabelType;
use crate::text::texts;

verus! {

/// What the label parsers found on a disc.
pub struct Analysis {
    pub parser: Option<String>,
    pub confidence: Option<String>,
    pub parsers_detected: Vec<String>,
    pub labels: Vec<StreamLabel>,
    pub jar_inventory: Vec<String>,
}

/// The members of the document of an analysis.
pub open spec fn analysis_members(analysis: Analysis) -> Seq<(Seq<char>, JsonView)> {
    seq![
        ("parser"@, optional_json(analysis.parser)),
        ("confidence"@, optional_json(analysis.confidence)),
        ("parsers_detected"@, texts_json(texts(analysis.parsers_detected@))),
        (
            "audio_count"@,
            JsonView::Integer(count_of(analysis.labels@, StreamLabelType::Audio) as int),
        ),
        (
            "subtitle_count"@,
            JsonView::Integer(count_of(analysis.labels@, StreamLabelType::Subtitle) as int),
        ),
        ("labels"@, labels_json(analysis.labels@)),
        ("jar_inventory"@, texts_json(texts(analysis.jar_inventory@))),
    ]
}

/// The document of an analysis.
pub open spec fn analysis_json(analysis: Analysis) -> JsonView {
    object_of(analysis_members(analysis))
}

/// The document of an analysis.
pub fn build_analysis_json(analysis: &Analysis) -> (json: Json)
    ensures
        json@ == analysis_json(*analysis),
{
    let members: Vec<(&str, Json)> = vec![
        ("parser", json_optional(&analysis.parser)),
        ("confidence", json_optional(&analysis.confidence)),
        ("parsers_detected", json_texts(&analysis.parsers_detected)),
        (
            "audio_count",
            Json::Unsigned(count_labels(&analysis.labels, StreamLabelType::Audio) as u64),
        ),
        (
            "subtitle_count",
            Json::Unsigned(count_labels(&analysis.labels, StreamLabelType::Subtitle) as u64),
        ),
        ("labels", json_labels(&analysis.labels)),
        ("jar_inventory", json_texts(&analysis.jar_inventory)),
    ];
    assert(named_views(members@) =~= analysis_members(*analysis));
    object_from(members)
}

/// Whether every value of a list of members holds no floating-point number and nests at most
/// `depth` arrays and objects.
pub open spec fn all_plain(members: Seq<(Seq<char>, JsonView)>, depth: nat) -> bool {
    forall|i: int| 0 <= i < members.len() ==> is_plain((#[trigger] members[i]).1, depth)
}

proof fn lemma_put_member_plain(
    members: Seq<(Seq<char>, JsonView)>,
    key: Seq<char>,
    value: JsonView,
    depth: nat,
)
    requires
        all_plain(members, depth),
        is_plain(value, depth),
    ensures
        all_plain(put_member(members, key, value), depth),
    decreases members.len(),
{
    if members.len() > 0 && !text_before(members.last().0, key) && members.last().0 != key {
        let front = members.drop_last();
        assert(all_plain(front, depth)) by {
            assert forall|i: int| 0 <= i < front.len() implies is_plain(
                (#[trigger] front[i]).1,
                depth,
            ) by {
                assert(is_plain(members[i].1, depth));
            }
        }
        lemma_put_member_plain(front, key, value, depth);
        assert(is_plain(members[members.len() - 1].1, depth));
    }
}

proof fn lemma_members_of_plain(list: Seq<(Seq<char>, JsonView)>, depth: nat)
    requires
        all_plain(list, depth),
    ensures
        all_plain(members_of(list), depth),
    decreases list.len(),
{
    if list.len() > 0 {
        let front = list.drop_last();
        assert(all_plain(front, depth)) by {
            assert forall|i: int| 0 <= i < front.len() implies is_plain(
                (#[trigger] front[i]).1,
                depth,
            ) by {
                assert(is_plain(list[i].1, depth));
            }
        }
        lemma_members_of_plain(front, depth);
        assert(is_plain(list[list.len() - 1].1, depth));
        lemma_put_member_plain(members_of(front), list.last().0, list.last().1, depth);
    }
}

proof fn lemma_label_is_plain(label: StreamLabel, depth: nat)
    requires
        depth > 0,
    ensures
        is_plain(label_json(label), depth),
{
    lemma_members_of_plain(label_members(label), (depth - 1) as nat);
}

proof fn lemma_texts_are_plain(list: Seq<Seq<char>>, depth: nat)
    requires
        depth > 0,
    ensures
        is_plain(texts_json(list), depth),
{
    let items = texts_json(list)->Array_0;
    assert forall|i: int| 0 <= i < items.len() implies is_plain(
        #[trigger] items[i],
        (depth - 1) as nat,
    ) by {
        assert(items[i] == JsonView::Text(list[i]));
    }
}

/// The document of an analysis holds no floating-point number and is not nested deeply, so that
/// its text reads back as the same document.
pub proof fn lemma_analysis_is_plain(analysis: Analysis)
    ensures
        is_plain(analysis_json(analysis), 127),
{
    let labels = labels_json(analysis.labels@);
    assert(is_plain(labels, 126)) by {
        let items = labels->Array_0;
        assert forall|i: int| 0 <= i < items.len() implies is_plain(#[trigger] items[i], 125) by {
            lemma_label_is_plain(analysis.labels@[i], 125);
        }
    }
    lemma_texts_are_plain(texts(analysis.parsers_detected@), 126);
    lemma_texts_are_plain(texts(analysis.jar_inventory@), 126);
    lemma_members_of_plain(analysis_members(analysis), 126);
}

/// The text of the snapshot of an analysis. It reads back as the analysis's document.
pub fn snapshot_text(analysis: &Analysis) -> (text: String)
    ensures
        text@ == json_pretty(analysis_json(*analysis), 0),
        reads_as(text@, analysis_json(*analysis)),
{
    proof {
        lemma_analysis_is_plain(*analysis);
    }
    to_pretty(&build_analysis_json(analysis))
}

} // verus!
