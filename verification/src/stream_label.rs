//! The labels that the parsers give to the streams of a disc.

use vstd::prelude::*;

use crate::json::json_views;
use crate::json::lemma_array_view;
use crate::json::named_views;
use crate::json::object_from;
use crate::json::object_of;
use crate::json::Json;
use crate::json::JsonView;
use crate::text::same_text;
use crate::text::texts;

verus! {

/// What kind of stream a label is of.
#[derive(Clone, Copy, Debug, PartialEq, Eq, Structural)]
pub enum StreamLabelType {
    Audio,
    Subtitle,
}

/// The label of one stream. Purpose and qualifier are the names of what the parser found.
pub struct StreamLabel {
    pub stream_number: u64,
    pub stream_type: StreamLabelType,
    pub language: String,
    pub name: String,
    pub codec_hint: String,
    pub variant: String,
    pub purpose: String,
    pub qualifier: String,
}

/// How a kind of stream is written.
pub open spec fn stream_type_name(stream_type: StreamLabelType) -> Seq<char> {
    match stream_type {
        StreamLabelType::Audio => "audio"@,
        StreamLabelType::Subtitle => "subtitle"@,
    }
}

/// The members of a label's object.
pub open spec fn label_members(label: StreamLabel) -> Seq<(Seq<char>, JsonView)> {
    seq![
        ("stream_number"@, JsonView::Integer(label.stream_number as int)),
        ("stream_type"@, JsonView::Text(stream_type_name(label.stream_type))),
        ("language"@, JsonView::Text(label.language@)),
        ("name"@, JsonView::Text(label.name@)),
        ("codec_hint"@, JsonView::Text(label.codec_hint@)),
        ("variant"@, JsonView::Text(label.variant@)),
        ("purpose"@, JsonView::Text(label.purpose@)),
        ("qualifier"@, JsonView::Text(label.qualifier@)),
    ]
}

/// A label as a JSON object.
pub open spec fn label_json(label: StreamLabel) -> JsonView {
    object_of(label_members(label))
}

/// Labels as a JSON array, in their order.
pub open spec fn labels_json(labels: Seq<StreamLabel>) -> JsonView {
    JsonView::Array(labels.map_values(|label: StreamLabel| label_json(label)))
}

/// How many of the labels are of one kind of stream.
pub open spec fn count_of(labels: Seq<StreamLabel>, stream_type: StreamLabelType) -> nat
    decreases labels.len(),
{
    if labels.len() == 0 {
        0
    } else {
        count_of(labels.drop_last(), stream_type) + if labels.last().stream_type == stream_type {
            1nat
        } else {
            0nat
        }
    }
}

/// A list of codes with one more, unless that is empty or in the list already.
pub open spec fn with_code(codes: Seq<Seq<char>>, code: Seq<char>) -> Seq<Seq<char>> {
    if code.len() == 0 || codes.contains(code) {
        codes
    } else {
        codes.push(code)
    }
}

/// The codes seen in labels, codec before variant, each once, in the order in which they are first
/// seen.
pub open spec fn raw_codes_of(labels: Seq<StreamLabel>) -> Seq<Seq<char>>
    decreases labels.len(),
{
    if labels.len() == 0 {
        Seq::empty()
    } else {
        with_code(
            with_code(raw_codes_of(labels.drop_last()), labels.last().codec_hint@),
            labels.last().variant@,
        )
    }
}

/// A label as a JSON object.
pub fn json_label(label: &StreamLabel) -> (json: Json)
    ensures
        json@ == label_json(*label),
{
    let stream_type: &str = match label.stream_type {
        StreamLabelType::Audio => "audio",
        StreamLabelType::Subtitle => "subtitle",
    };
    let members: Vec<(&str, Json)> = vec![
        ("stream_number", Json::Unsigned(label.stream_number)),
        ("stream_type", Json::Text(stream_type.to_owned())),
        ("language", Json::Text(label.language.clone())),
        ("name", Json::Text(label.name.clone())),
        ("codec_hint", Json::Text(label.codec_hint.clone())),
        ("variant", Json::Text(label.variant.clone())),
        ("purpose", Json::Text(label.purpose.clone())),
        ("qualifier", Json::Text(label.qualifier.clone())),
    ];
    assert(named_views(members@) =~= label_members(*label));
    object_from(members)
}

/// Labels as a JSON array.
pub fn json_labels(labels: &Vec<StreamLabel>) -> (json: Json)
    ensures
        json@ == labels_json(labels@),
{
    let mut items: Vec<Json> = Vec::new();
    let mut i: usize = 0;
    while i < labels.len()
        invariant
            i <= labels.len(),
            items@.len() == i,
            forall|k: int| 0 <= k < i ==> (#[trigger] items@[k])@ == label_json(labels@[k]),
        decreases labels.len() - i,
    {
        items.push(json_label(&labels[i]));
        i = i + 1;
    }
    proof {
        lemma_array_view(items);
        assert(json_views(items@) =~= labels@.map_values(|label: StreamLabel| label_json(label)));
    }
    Json::Array(items)
}

/// Counts the labels of one kind of stream.
pub fn count_labels(labels: &Vec<StreamLabel>, stream_type: StreamLabelType) -> (n: usize)
    ensures
        n == count_of(labels@, stream_type),
{
    let mut n: usize = 0;
    let mut i: usize = 0;
    while i < labels.len()
        invariant
            i <= labels.len(),
            n <= i,
            n == count_of(labels@.take(i as int), stream_type),
        decreases labels.len() - i,
    {
        assert(labels@.take(i + 1).drop_last() =~= labels@.take(i as int));
        if labels[i].stream_type == stream_type {
            n = n + 1;
        }
        i = i + 1;
    }
    assert(labels@.take(i as int) =~= labels@);
    n
}

fn push_code(codes: &mut Vec<String>, code: &String)
    ensures
        texts(final(codes)@) == with_code(texts(old(codes)@), code@),
{
    if code.as_str().is_empty() {
        return;
    }
    let mut i: usize = 0;
    while i < codes.len()
        invariant
            i <= codes.len(),
            codes@ == old(codes)@,
            code@.len() > 0,
            forall|k: int| 0 <= k < i ==> texts(codes@)[k] != code@,
        decreases codes.len() - i,
    {
        if same_text(codes[i].as_str(), code.as_str()) {
            assert(texts(codes@)[i as int] == code@);
            return;
        }
        i = i + 1;
    }
    let ghost before = codes@;
    codes.push(code.clone());
    assert(texts(codes@) =~= texts(before).push(code@));
}

/// Collects the codes seen in labels, for triage of gaps in the vocabulary.
pub fn raw_codes(labels: &Vec<StreamLabel>) -> (codes: Vec<String>)
    ensures
        texts(codes@) == raw_codes_of(labels@),
{
    let mut codes: Vec<String> = Vec::new();
    let mut i: usize = 0;
    assert(texts(codes@) =~= raw_codes_of(labels@.take(0)));
    while i < labels.len()
        invariant
            i <= labels.len(),
            texts(codes@) == raw_codes_of(labels@.take(i as int)),
        decreases labels.len() - i,
    {
        assert(labels@.take(i + 1).drop_last() =~= labels@.take(i as int));
        push_code(&mut codes, &labels[i].codec_hint);
        push_code(&mut codes, &labels[i].variant);
        i = i + 1;
    }
    assert(labels@.take(i as int) =~= labels@);
    codes
}

/// Every label is counted once: as audio or as subtitle.
pub proof fn law_counts_add_up(labels: Seq<StreamLabel>)
    ensures
        count_of(labels, StreamLabelType::Audio) + count_of(labels, StreamLabelType::Subtitle)
            == labels.len(),
    decreases labels.len(),
{
    if labels.len() > 0 {
        law_counts_add_up(labels.drop_last());
    }
}

/// Whether a code is the codec or the variant of a label.
pub open spec fn has_code(label: StreamLabel, code: Seq<char>) -> bool {
    label.codec_hint@ == code || label.variant@ == code
}

/// The raw codes are distinct and not empty, and they are exactly the codes of the labels.
pub proof fn law_raw_codes_are_distinct_and_complete(labels: Seq<StreamLabel>)
    ensures
        raw_codes_of(labels).no_duplicates(),
        forall|code: Seq<char>| #[trigger]
            raw_codes_of(labels).contains(code) <==> code.len() > 0 && exists|i: int|
                0 <= i < labels.len() && has_code(#[trigger] labels[i], code),
    decreases labels.len(),
{
    if labels.len() > 0 {
        let front = labels.drop_last();
        let last = labels.last();
        law_raw_codes_are_distinct_and_complete(front);
        let before = raw_codes_of(front);
        let middle = with_code(before, last.codec_hint@);
        lemma_with_code(before, last.codec_hint@);
        lemma_with_code(middle, last.variant@);
        assert forall|code: Seq<char>| #[trigger]
            raw_codes_of(labels).contains(code) <==> code.len() > 0 && exists|i: int|
                0 <= i < labels.len() && has_code(#[trigger] labels[i], code) by {
            if code.len() > 0 && exists|i: int|
                0 <= i < labels.len() && has_code(#[trigger] labels[i], code) {
                let i = choose|i: int|
                    0 <= i < labels.len() && has_code(#[trigger] labels[i], code);
                if i < front.len() {
                    assert(has_code(front[i], code));
                    assert(before.contains(code));
                    assert(middle.contains(code));
                } else {
                    assert(last == labels[i]);
                    assert(middle.contains(code) || code == last.variant@);
                }
            }
            if raw_codes_of(labels).contains(code) {
                if middle.contains(code) {
                    if before.contains(code) {
                        let i = choose|i: int|
                            0 <= i < front.len() && has_code(#[trigger] front[i], code);
                        assert(has_code(labels[i], code));
                    } else {
                        assert(has_code(labels[labels.len() - 1], code));
                    }
                } else {
                    assert(has_code(labels[labels.len() - 1], code));
                }
            }
        }
    } else {
        assert forall|code: Seq<char>| !(#[trigger] raw_codes_of(labels).contains(code)) by {}
    }
}

proof fn lemma_with_code(codes: Seq<Seq<char>>, code: Seq<char>)
    requires
        codes.no_duplicates(),
    ensures
        with_code(codes, code).no_duplicates(),
        forall|x: Seq<char>| #[trigger]
            with_code(codes, code).contains(x) <==> codes.contains(x) || (x == code && x.len() > 0
                && !codes.contains(x)),
{
    let result = with_code(codes, code);
    assert forall|x: Seq<char>| #[trigger]
        result.contains(x) <==> codes.contains(x) || (x == code && x.len() > 0
            && !codes.contains(x)) by {
        if code.len() > 0 && !codes.contains(code) {
            if codes.contains(x) {
                let i = choose|i: int| 0 <= i < codes.len() && codes[i] == x;
                assert(result[i] == x);
            }
            if x == code {
                assert(result[codes.len() as int] == x);
            }
            if result.contains(x) {
                let i = choose|i: int| 0 <= i < result.len() && result[i] == x;
                if i < codes.len() {
                    assert(codes[i] == x);
                }
            }
        }
    }
}

} // verus!
