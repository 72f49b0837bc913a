//! How the analysis of a disc differs from its snapshot.

use vstd::prelude::*;
use vstd::utf8::decode_utf8;
use vstd::utf8::encode_utf8;
use vstd::utf8::is_char_boundary;

use crate::json::lookup;
use crate::json::json_text;
use crate::json::json_views;
use crate::json::keys_of;
use crate::json::lemma_array_view;
use crate::json::same_member;
use crate::json::Json;
use crate::json::JsonObject;
use crate::json::JsonView;
use crate::json_value::to_text;
use crate::order::code_points;
use crate::order::codes;
use crate::order::key_views;
use crate::order::as_positions;
use crate::order::rank_texts;
use crate::order::sort_positions;
use crate::order::sorted_positions;
use crate::order::text_before;
use crate::order::Rank;
use crate::order::SortKey;
use crate::text::decimal;
use crate::text::decimal_text;
use crate::text::texts;

verus! {

/// One difference: where it is, and the full texts of the two values.
pub struct Diff {
    pub label: String,
    pub want: String,
    pub got: String,
}

/// What a difference holds.
pub struct DiffView {
    pub label: Seq<char>,
    pub want: Seq<char>,
    pub got: Seq<char>,
}

impl View for Diff {
    type V = DiffView;

    open spec fn view(&self) -> DiffView {
        DiffView { label: self.label@, want: self.want@, got: self.got@ }
    }
}

/// What each difference of a list holds.
pub open spec fn diff_views(diffs: Seq<Diff>) -> Seq<DiffView> {
    diffs.map_values(|diff: Diff| diff@)
}

/// The full text of a value that may be missing.
pub open spec fn shown(value: Option<JsonView>) -> Seq<char> {
    match value {
        Some(json) => json_text(json),
        None => "<missing>"@,
    }
}

/// The difference between two values that may be missing, where there is one.
pub open spec fn difference(
    label: Seq<char>,
    want: Option<JsonView>,
    got: Option<JsonView>,
) -> Seq<DiffView> {
    if same_member(want, got) {
        Seq::empty()
    } else {
        seq![DiffView { label, want: shown(want), got: shown(got) }]
    }
}

/// The differences in the members with the given keys, in the order of the keys. The label of
/// each is its key behind a prefix.
pub open spec fn member_differences(
    prefix: Seq<char>,
    want: JsonView,
    got: JsonView,
    keys: Seq<Seq<char>>,
) -> Seq<DiffView>
    decreases keys.len(),
{
    if keys.len() == 0 {
        Seq::empty()
    } else {
        member_differences(prefix, want, got, keys.drop_last()) + difference(
            prefix + keys.last(),
            lookup(want, keys.last()),
            lookup(got, keys.last()),
        )
    }
}

/// The keys of two ascending lists, each once, in ascending order.
pub open spec fn merged_keys(a: Seq<Seq<char>>, b: Seq<Seq<char>>) -> Seq<Seq<char>>
    decreases a.len() + b.len(),
{
    if a.len() == 0 {
        b
    } else if b.len() == 0 {
        a
    } else if text_before(a[0], b[0]) {
        seq![a[0]] + merged_keys(a.skip(1), b)
    } else if text_before(b[0], a[0]) {
        seq![b[0]] + merged_keys(a, b.skip(1))
    } else {
        seq![a[0]] + merged_keys(a.skip(1), b.skip(1))
    }
}

/// Every difference between two documents: member by member where both are objects.
pub open spec fn exact_differences(want: JsonView, got: JsonView) -> Seq<DiffView> {
    match (want, got) {
        (JsonView::Object(x), JsonView::Object(y)) => member_differences(
            Seq::empty(),
            want,
            got,
            merged_keys(keys_of(x), keys_of(y)),
        ),
        _ => difference("root"@, Some(want), Some(got)),
    }
}

/// The members of a document that are compared across captures.
pub open spec fn document_keys() -> Seq<Seq<char>> {
    seq!["parser"@, "confidence"@, "parsers_detected"@, "audio_count"@, "subtitle_count"@]
}

/// The members of a label that are compared.
pub open spec fn label_keys() -> Seq<Seq<char>> {
    seq![
        "stream_number"@,
        "stream_type"@,
        "language"@,
        "name"@,
        "codec_hint"@,
        "variant"@,
        "purpose"@,
        "qualifier"@,
    ]
}

/// The objects among a list of values, in their order.
pub open spec fn objects_among(items: Seq<JsonView>) -> Seq<JsonView>
    decreases items.len(),
{
    if items.len() == 0 {
        Seq::empty()
    } else if items.last() is Object {
        objects_among(items.drop_last()).push(items.last())
    } else {
        objects_among(items.drop_last())
    }
}

/// The type of the stream that a label is of; empty where the label does not say it as text.
pub open spec fn stream_type_of(label: JsonView) -> Seq<char> {
    match lookup(label, "stream_type"@) {
        Some(JsonView::Text(s)) => s,
        _ => Seq::empty(),
    }
}

/// The number of the stream that a label is of; zero where the label does not say it as a number
/// that fits.
pub open spec fn stream_number_of(label: JsonView) -> u64 {
    match lookup(label, "stream_number"@) {
        Some(JsonView::Integer(n)) => if 0 <= n <= u64::MAX {
            n as u64
        } else {
            0
        },
        _ => 0,
    }
}

/// What labels are ordered by: the stream type, then the stream number.
pub open spec fn label_order(label: JsonView) -> Seq<Seq<u64>> {
    seq![codes(stream_type_of(label)), seq![stream_number_of(label)]]
}

/// The orders of a list of labels.
pub open spec fn label_orders(labels: Seq<JsonView>) -> Seq<Seq<Seq<u64>>> {
    labels.map_values(|label: JsonView| label_order(label))
}

/// Labels sorted by stream type and stream number, equal ones in their order.
pub open spec fn sorted_labels(labels: Seq<JsonView>) -> Seq<JsonView> {
    sorted_positions(label_orders(labels), labels.len()).map_values(|p: int| labels[p])
}

/// The label objects of a document's label list, sorted; none where there is no such list.
pub open spec fn normalized_labels(list: Option<JsonView>) -> Seq<JsonView> {
    match list {
        Some(JsonView::Array(items)) => sorted_labels(objects_among(items)),
        _ => Seq::empty(),
    }
}

/// What the differences of one label are labelled with.
pub open spec fn label_prefix(i: nat) -> Seq<char> {
    "labels["@ + decimal(i) + "]."@
}

/// The differences between the first `n` labels of two lists, label by label.
pub open spec fn label_differences(want: Seq<JsonView>, got: Seq<JsonView>, n: nat) -> Seq<
    DiffView,
>
    decreases n,
{
    if n == 0 {
        Seq::empty()
    } else {
        label_differences(want, got, (n - 1) as nat) + member_differences(
            label_prefix((n - 1) as nat),
            want[n - 1],
            got[n - 1],
            label_keys(),
        )
    }
}

/// The difference between the lengths of two lists of labels, where there is one.
pub open spec fn length_difference(want: nat, got: nat) -> Seq<DiffView> {
    if want == got {
        Seq::empty()
    } else {
        seq![DiffView { label: "labels.len"@, want: decimal(want), got: decimal(got) }]
    }
}

/// The differences between two lists of labels: in their lengths, then label by label as far as
/// both go.
pub open spec fn labels_differences(want: Seq<JsonView>, got: Seq<JsonView>) -> Seq<DiffView> {
    length_difference(want.len(), got.len()) + label_differences(
        want,
        got,
        if want.len() <= got.len() {
            want.len()
        } else {
            got.len()
        },
    )
}

/// The differences between two documents in what is stable across captures.
pub open spec fn structural_differences(want: JsonView, got: JsonView) -> Seq<DiffView> {
    member_differences(Seq::empty(), want, got, document_keys()) + labels_differences(
        normalized_labels(lookup(want, "labels"@)),
        normalized_labels(lookup(got, "labels"@)),
    )
}

/// Whether a text can be cut for a line of differences: it is short enough to stand whole, or a
/// character ends where it is to be cut.
pub open spec fn can_be_brief(text: Seq<char>) -> bool {
    encode_utf8(text).len() > 80 ==> is_char_boundary(encode_utf8(text), 80)
}

/// A text of more than eighty bytes cut there, with an ellipsis behind it; a shorter text whole.
pub open spec fn brief(text: Seq<char>) -> Seq<char> {
    if encode_utf8(text).len() > 80 {
        decode_utf8(encode_utf8(text).subrange(0, 80)) + "\u{2026}"@
    } else {
        text
    }
}

/// What a value that may be missing holds.
pub open spec fn member_view(value: Option<&Json>) -> Option<JsonView> {
    match value {
        Some(json) => Some(json@),
        None => None,
    }
}

/// Whether two values that may be missing are both missing or equal.
fn members_match(a: Option<&Json>, b: Option<&Json>) -> (same: bool)
    ensures
        same == same_member(member_view(a), member_view(b)),
{
    match (a, b) {
        (Some(x), Some(y)) => x.same(y),
        (None, None) => true,
        _ => false,
    }
}

/// The full text of a value that may be missing.
fn show(value: Option<&Json>) -> (text: String)
    ensures
        text@ == shown(member_view(value)),
{
    match value {
        Some(json) => to_text(json),
        None => "<missing>".to_owned(),
    }
}

/// Adds the difference between two values that may be missing, where there is one.
fn push_difference(
    out: &mut Vec<Diff>,
    prefix: &str,
    key: &str,
    want: Option<&Json>,
    got: Option<&Json>,
)
    ensures
        diff_views(final(out)@) == diff_views(old(out)@) + difference(
            prefix@ + key@,
            member_view(want),
            member_view(got),
        ),
{
    if members_match(want, got) {
        assert(diff_views(out@) =~= diff_views(out@) + Seq::<DiffView>::empty());
    } else {
        let mut label: String = prefix.to_owned();
        label.append(key);
        let ghost before = out@;
        let diff = Diff { label, want: show(want), got: show(got) };
        out.push(diff);
        assert(diff_views(out@) =~= diff_views(before) + seq![diff@]);
    }
}

/// Adds the differences in the members with the given keys.
fn push_member_differences(
    out: &mut Vec<Diff>,
    prefix: &str,
    want: &Json,
    got: &Json,
    keys: &Vec<&str>,
)
    ensures
        diff_views(final(out)@) == diff_views(old(out)@) + member_differences(
            prefix@,
            want@,
            got@,
            str_views(keys@),
        ),
{
    let ghost before = diff_views(out@);
    let ghost all = str_views(keys@);
    let mut i: usize = 0;
    assert(before =~= before + member_differences(prefix@, want@, got@, all.take(0)));
    while i < keys.len()
        invariant
            i <= keys.len(),
            all == str_views(keys@),
            diff_views(out@) == before + member_differences(
                prefix@,
                want@,
                got@,
                all.take(i as int),
            ),
        decreases keys.len() - i,
    {
        let key: &str = keys[i];
        assert(all.take(i + 1).drop_last() =~= all.take(i as int));
        assert(all.take(i + 1).last() == key@);
        push_difference(out, prefix, key, want.get(key), got.get(key));
        assert(diff_views(out@) =~= before + member_differences(
            prefix@,
            want@,
            got@,
            all.take(i + 1),
        ));
        i = i + 1;
    }
    assert(all.take(i as int) =~= all);
}

/// The views of a list of texts.
pub open spec fn str_views(list: Seq<&str>) -> Seq<Seq<char>> {
    list.map_values(|s: &str| s@)
}

/// The keys of two objects, each once, in ascending order.
fn merge_keys<'a>(a: &'a JsonObject, b: &'a JsonObject) -> (keys: Vec<&'a str>)
    ensures
        str_views(keys@) == merged_keys(keys_of(a@), keys_of(b@)),
{
    let ghost x = keys_of(a@);
    let ghost y = keys_of(b@);
    let mut keys: Vec<&'a str> = Vec::new();
    let mut i: usize = 0;
    let mut j: usize = 0;
    let n: usize = a.len();
    let m: usize = b.len();
    assert(x.skip(0) =~= x);
    assert(y.skip(0) =~= y);
    assert(str_views(keys@) + merged_keys(x, y) =~= merged_keys(x, y));
    while i < n || j < m
        invariant
            x == keys_of(a@),
            y == keys_of(b@),
            i <= n,
            j <= m,
            n == a@.len(),
            m == b@.len(),
            str_views(keys@) + merged_keys(x.skip(i as int), y.skip(j as int)) == merged_keys(x, y),
        decreases n - i + m - j,
    {
        let ghost before = keys@;
        let ghost p = x.skip(i as int);
        let ghost q = y.skip(j as int);
        let rank: Rank = if i == n {
            Rank::Greater
        } else if j == m {
            Rank::Less
        } else {
            rank_texts(a.key(i), b.key(j))
        };
        proof {
            if i < n && j < m {
                crate::order::lemma_codes_flip(codes(p[0]), codes(q[0]));
                crate::order::lemma_codes_flip(codes(q[0]), codes(p[0]));
            }
            if i < n {
                assert(p.skip(1) =~= x.skip(i + 1));
                assert(p =~= seq![p[0]] + p.skip(1));
            }
            if j < m {
                assert(q.skip(1) =~= y.skip(j + 1));
                assert(q =~= seq![q[0]] + q.skip(1));
            }
        }
        match rank {
            Rank::Less => {
                keys.push(a.key(i));
                assert(str_views(keys@) =~= str_views(before).push(p[0]));
                assert(merged_keys(p, q) =~= seq![p[0]] + merged_keys(p.skip(1), q));
                i = i + 1;
            },
            Rank::Greater => {
                keys.push(b.key(j));
                assert(str_views(keys@) =~= str_views(before).push(q[0]));
                assert(merged_keys(p, q) =~= seq![q[0]] + merged_keys(p, q.skip(1)));
                j = j + 1;
            },
            Rank::Equal => {
                keys.push(a.key(i));
                assert(str_views(keys@) =~= str_views(before).push(p[0]));
                i = i + 1;
                j = j + 1;
            },
        }
        assert(str_views(keys@) + merged_keys(x.skip(i as int), y.skip(j as int)) =~= str_views(
            before,
        ) + merged_keys(p, q));
    }
    assert(x.skip(i as int) =~= Seq::<Seq<char>>::empty());
    assert(y.skip(j as int) =~= Seq::<Seq<char>>::empty());
    assert(str_views(keys@) =~= merged_keys(x, y));
    keys
}

/// Finds every difference between two documents.
pub fn exact_diffs(want: &Json, got: &Json) -> (diffs: Vec<Diff>)
    ensures
        diff_views(diffs@) == exact_differences(want@, got@),
{
    let mut out: Vec<Diff> = Vec::new();
    match (want, got) {
        (Json::Object(x), Json::Object(y)) => {
            let keys: Vec<&str> = merge_keys(x, y);
            push_member_differences(&mut out, "", want, got, &keys);
            proof {
                reveal_strlit("");
                assert(""@ =~= Seq::<char>::empty());
            }
        },
        _ => {
            push_difference(&mut out, "", "root", Some(want), Some(got));
            proof {
                reveal_strlit("");
                assert(""@ + "root"@ =~= "root"@);
            }
        },
    }
    assert(diff_views(out@) =~= exact_differences(want@, got@));
    out
}

/// What each value of a list holds.
pub open spec fn ref_views(items: Seq<&Json>) -> Seq<JsonView> {
    items.map_values(|item: &Json| item@)
}

/// The sort key of a label.
fn label_sort_key(label: &Json) -> (key: SortKey)
    ensures
        key@ == label_order(label@),
{
    let stream_type: &str = match label.get("stream_type") {
        Some(Json::Text(s)) => s.as_str(),
        _ => "",
    };
    let number: u64 = match label.get("stream_number") {
        Some(Json::Unsigned(n)) => *n,
        Some(Json::Signed(n)) => if *n >= 0 {
            *n as u64
        } else {
            0
        },
        _ => 0,
    };
    proof {
        reveal_strlit("");
        assert(""@ =~= Seq::<char>::empty());
    }
    let type_row: Vec<u64> = code_points(stream_type);
    let number_row: Vec<u64> = vec![number];
    assert(number_row@ =~= seq![number]);
    let rows: Vec<Vec<u64>> = vec![type_row, number_row];
    let key = SortKey { rows };
    assert(key@ =~= label_order(label@));
    key
}

/// The label objects of a label list, sorted by stream type and stream number.
pub fn normalize_labels<'a>(list: Option<&'a Json>) -> (labels: Vec<&'a Json>)
    ensures
        ref_views(labels@) == normalized_labels(member_view(list)),
{
    let items: &'a Vec<Json> = match list {
        Some(Json::Array(items)) => items,
        _ => {
            let none: Vec<&'a Json> = Vec::new();
            assert(ref_views(none@) =~= Seq::<JsonView>::empty());
            return none;
        },
    };
    proof {
        lemma_array_view(*items);
    }
    let ghost all = json_views(items@);
    let mut objects: Vec<&'a Json> = Vec::new();
    let mut keys: Vec<SortKey> = Vec::new();
    let mut i: usize = 0;
    assert(ref_views(objects@) =~= objects_among(all.take(0)));
    assert(key_views(keys@) =~= label_orders(ref_views(objects@)));
    while i < items.len()
        invariant
            i <= items.len(),
            all == json_views(items@),
            ref_views(objects@) == objects_among(all.take(i as int)),
            key_views(keys@) == label_orders(ref_views(objects@)),
        decreases items.len() - i,
    {
        assert(all.take(i + 1).drop_last() =~= all.take(i as int));
        assert(all.take(i + 1).last() == items@[i as int]@);
        let ghost objects_before = objects@;
        let ghost keys_before = keys@;
        let item: &'a Json = &items[i];
        let is_object: bool = match item {
            Json::Object(_) => true,
            _ => false,
        };
        if is_object {
            let key: SortKey = label_sort_key(item);
            objects.push(item);
            keys.push(key);
            assert(ref_views(objects@) =~= ref_views(objects_before).push(item@));
            assert(key_views(keys@) =~= key_views(keys_before).push(key@));
            assert(key_views(keys@) =~= label_orders(ref_views(objects@)));
        }
        i = i + 1;
    }
    assert(all.take(i as int) =~= all);
    let ghost found = ref_views(objects@);
    let order: Vec<usize> = sort_positions(&keys);
    let ghost positions = sorted_positions(label_orders(found), found.len());
    assert(keys@.len() == found.len()) by {
        assert(key_views(keys@).len() == label_orders(found).len());
    }
    let mut labels: Vec<&'a Json> = Vec::new();
    let mut k: usize = 0;
    assert(ref_views(labels@) =~= sorted_labels(found).take(0));
    while k < order.len()
        invariant
            k <= order.len(),
            found == ref_views(objects@),
            order@.len() == objects@.len(),
            as_positions(order@) == sorted_positions(label_orders(found), found.len()),
            forall|i: int| 0 <= i < order@.len() ==> 0 <= #[trigger] order@[i] < objects@.len(),
            ref_views(labels@) == sorted_labels(found).take(k as int),
        decreases order.len() - k,
    {
        let ghost before = labels@;
        let p: usize = order[k];
        assert(as_positions(order@)[k as int] == p as int);
        labels.push(objects[p]);
        assert(ref_views(labels@) =~= ref_views(before).push(found[p as int]));
        assert(sorted_labels(found)[k as int] == found[p as int]);
        assert(ref_views(labels@) =~= sorted_labels(found).take(k + 1));
        k = k + 1;
    }
    assert(sorted_labels(found).len() == as_positions(order@).len());
    assert(sorted_labels(found).take(k as int) =~= sorted_labels(found));
    labels
}

/// The members of a document that are compared across captures.
fn compared_document_keys() -> (keys: Vec<&'static str>)
    ensures
        str_views(keys@) == document_keys(),
{
    let keys: Vec<&'static str> = vec![
        "parser",
        "confidence",
        "parsers_detected",
        "audio_count",
        "subtitle_count",
    ];
    assert(str_views(keys@) =~= document_keys());
    keys
}

/// The members of a label that are compared.
fn compared_label_keys() -> (keys: Vec<&'static str>)
    ensures
        str_views(keys@) == label_keys(),
{
    let keys: Vec<&'static str> = vec![
        "stream_number",
        "stream_type",
        "language",
        "name",
        "codec_hint",
        "variant",
        "purpose",
        "qualifier",
    ];
    assert(str_views(keys@) =~= label_keys());
    keys
}

/// Finds the differences between two documents in what is stable across captures.
pub fn structural_diffs(want: &Json, got: &Json) -> (diffs: Vec<Diff>)
    ensures
        diff_views(diffs@) == structural_differences(want@, got@),
{
    let mut out: Vec<Diff> = Vec::new();
    push_member_differences(&mut out, "", want, got, &compared_document_keys());
    proof {
        reveal_strlit("");
        assert(""@ =~= Seq::<char>::empty());
    }
    let ghost documents = member_differences(Seq::empty(), want@, got@, document_keys());
    assert(diff_views(out@) =~= documents);
    let want_labels: Vec<&Json> = normalize_labels(want.get("labels"));
    let got_labels: Vec<&Json> = normalize_labels(got.get("labels"));
    let ghost w = ref_views(want_labels@);
    let ghost g = ref_views(got_labels@);
    assert(w == normalized_labels(lookup(want@, "labels"@)));
    assert(g == normalized_labels(lookup(got@, "labels"@)));
    let ghost lengths = length_difference(w.len(), g.len());
    if want_labels.len() != got_labels.len() {
        let ghost before = out@;
        let diff = Diff {
            label: "labels.len".to_owned(),
            want: decimal_text(want_labels.len() as u64),
            got: decimal_text(got_labels.len() as u64),
        };
        out.push(diff);
        assert(diff_views(out@) =~= diff_views(before).push(diff@));
        assert(diff_views(out@) =~= documents + lengths);
    } else {
        assert(diff_views(out@) =~= documents + lengths);
    }
    let shared: usize = if want_labels.len() <= got_labels.len() {
        want_labels.len()
    } else {
        got_labels.len()
    };
    let keys: Vec<&'static str> = compared_label_keys();
    let mut i: usize = 0;
    assert(diff_views(out@) =~= documents + lengths + label_differences(w, g, 0));
    while i < shared
        invariant
            i <= shared,
            shared <= want_labels.len(),
            shared <= got_labels.len(),
            w == ref_views(want_labels@),
            g == ref_views(got_labels@),
            str_views(keys@) == label_keys(),
            diff_views(out@) == documents + lengths + label_differences(w, g, i as nat),
        decreases shared - i,
    {
        let mut prefix: String = "labels[".to_owned();
        prefix.append(decimal_text(i as u64).as_str());
        prefix.append("].");
        push_member_differences(
            &mut out,
            prefix.as_str(),
            want_labels[i],
            got_labels[i],
            &keys,
        );
        assert(diff_views(out@) =~= documents + lengths + label_differences(w, g, (i + 1) as nat));
        i = i + 1;
    }
    assert(diff_views(out@) =~= structural_differences(want@, got@));
    out
}

/// Whether a difference can be written as a line.
pub open spec fn is_printable(diff: DiffView) -> bool {
    can_be_brief(diff.want) && can_be_brief(diff.got)
}

/// Whether every difference of a list can be written as a line.
pub open spec fn all_printable(diffs: Seq<DiffView>) -> bool {
    forall|i: int| 0 <= i < diffs.len() ==> is_printable(#[trigger] diffs[i])
}

/// A difference as a line.
pub open spec fn diff_line(diff: DiffView) -> Seq<char> {
    diff.label + ": want="@ + brief(diff.want) + " got="@ + brief(diff.got)
}

/// Differences as lines.
pub open spec fn diff_lines(diffs: Seq<DiffView>) -> Seq<Seq<char>> {
    diffs.map_values(|diff: DiffView| diff_line(diff))
}

/// Whether a text can be cut for a line of differences.
fn fits_brief(text: &str) -> (fits: bool)
    ensures
        fits == can_be_brief(text@),
{
    text.as_bytes().len() <= 80 || text.is_char_boundary(80)
}

/// Cuts a text for a line of differences.
pub fn brief_text(text: &str) -> (cut: String)
    requires
        can_be_brief(text@),
    ensures
        cut@ == brief(text@),
{
    if text.as_bytes().len() > 80 {
        let (head, _tail) = text.split_at(80);
        proof {
            vstd::utf8::encode_utf8_decode_utf8(head@);
        }
        let mut cut: String = head.to_owned();
        cut.append("\u{2026}");
        cut
    } else {
        text.to_owned()
    }
}

/// A value that may be missing, cut for a line of differences.
pub fn json_brief(value: Option<&Json>) -> (cut: String)
    requires
        can_be_brief(shown(member_view(value))),
    ensures
        cut@ == brief(shown(member_view(value))),
{
    brief_text(show(value).as_str())
}

impl Diff {
    /// Whether the difference can be written as a line: a text of more than eighty bytes needs the
    /// end of a character there.
    pub fn printable(&self) -> (printable: bool)
        ensures
            printable == is_printable(self@),
    {
        fits_brief(self.want.as_str()) && fits_brief(self.got.as_str())
    }

    /// The difference as a line.
    pub fn line(&self) -> (line: String)
        requires
            is_printable(self@),
        ensures
            line@ == diff_line(self@),
    {
        let mut line: String = self.label.clone();
        line.append(": want=");
        line.append(brief_text(self.want.as_str()).as_str());
        line.append(" got=");
        line.append(brief_text(self.got.as_str()).as_str());
        line
    }
}

/// Whether every difference of a list can be written as a line.
pub fn printable_diffs(diffs: &Vec<Diff>) -> (printable: bool)
    ensures
        printable == all_printable(diff_views(diffs@)),
{
    let mut i: usize = 0;
    while i < diffs.len()
        invariant
            i <= diffs.len(),
            forall|k: int| 0 <= k < i ==> is_printable(#[trigger] diff_views(diffs@)[k]),
        decreases diffs.len() - i,
    {
        if !diffs[i].printable() {
            assert(!is_printable(diff_views(diffs@)[i as int]));
            return false;
        }
        i = i + 1;
    }
    true
}

/// Writes differences as lines.
pub fn lines_of(diffs: &Vec<Diff>) -> (lines: Vec<String>)
    requires
        all_printable(diff_views(diffs@)),
    ensures
        texts(lines@) == diff_lines(diff_views(diffs@)),
{
    let ghost all = diff_views(diffs@);
    let mut lines: Vec<String> = Vec::new();
    let mut i: usize = 0;
    assert(texts(lines@) =~= diff_lines(all).take(0));
    while i < diffs.len()
        invariant
            i <= diffs.len(),
            all == diff_views(diffs@),
            all_printable(all),
            texts(lines@) == diff_lines(all).take(i as int),
        decreases diffs.len() - i,
    {
        let ghost before = lines@;
        assert(all[i as int] == diffs@[i as int]@);
        let line: String = diffs[i].line();
        lines.push(line);
        assert(texts(lines@) =~= texts(before).push(line@));
        assert(texts(lines@) =~= diff_lines(all).take(i + 1));
        i = i + 1;
    }
    assert(diff_lines(all).take(i as int) =~= diff_lines(all));
    lines
}

/// Strict comparison, value for value: a line for each member that differs.
pub fn diff_exact(want: &Json, got: &Json) -> (lines: Vec<String>)
    requires
        all_printable(exact_differences(want@, got@)),
    ensures
        texts(lines@) == diff_lines(exact_differences(want@, got@)),
{
    lines_of(&exact_diffs(want, got))
}

/// Comparison of what is stable across captures: the parser, its confidence, the parsers detected,
/// the label counts, and label by label the fields of each stream. The labels are compared in the
/// order of their stream types and stream numbers, whatever order they came in; the inventory of
/// files is left out.
pub fn diff_structural(want: &Json, got: &Json) -> (lines: Vec<String>)
    requires
        all_printable(structural_differences(want@, got@)),
    ensures
        texts(lines@) == diff_lines(structural_differences(want@, got@)),
{
    lines_of(&structural_diffs(want, got))
}

} // verus!
