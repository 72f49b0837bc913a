//! Lexicographic order on texts and lists of texts, and the stable sort by such keys.

use vstd::prelude::*;

use crate::text::chars_of;

verus! {

/// How one value stands to another.
#[derive(Clone, Copy, Debug, PartialEq, Eq, Structural)]
pub enum Rank {
    Less,
    Equal,
    Greater,
}

/// Lexicographic order on rows of numbers.
pub open spec fn codes_order(a: Seq<u64>, b: Seq<u64>) -> Rank
    decreases a.len(),
{
    if a.len() == 0 {
        if b.len() == 0 {
            Rank::Equal
        } else {
            Rank::Less
        }
    } else if b.len() == 0 {
        Rank::Greater
    } else if a[0] < b[0] {
        Rank::Less
    } else if a[0] > b[0] {
        Rank::Greater
    } else {
        codes_order(a.skip(1), b.skip(1))
    }
}

/// Lexicographic order on lists of rows, row by row.
pub open spec fn lists_order(a: Seq<Seq<u64>>, b: Seq<Seq<u64>>) -> Rank
    decreases a.len(),
{
    if a.len() == 0 {
        if b.len() == 0 {
            Rank::Equal
        } else {
            Rank::Less
        }
    } else if b.len() == 0 {
        Rank::Greater
    } else if codes_order(a[0], b[0]) != Rank::Equal {
        codes_order(a[0], b[0])
    } else {
        lists_order(a.skip(1), b.skip(1))
    }
}

/// The code points of a text.
pub open spec fn codes(s: Seq<char>) -> Seq<u64> {
    s.map_values(|c: char| c as u64)
}

/// Whether one text stands before another in the order of their code points.
pub open spec fn text_before(a: Seq<char>, b: Seq<char>) -> bool {
    codes_order(codes(a), codes(b)) == Rank::Less
}

/// Rows are equal in the order exactly where they are the same.
pub proof fn lemma_codes_equal(a: Seq<u64>, b: Seq<u64>)
    ensures
        codes_order(a, b) == Rank::Equal <==> a == b,
    decreases a.len(),
{
    if a.len() == 0 || b.len() == 0 {
        assert(a.len() == b.len() ==> a =~= b);
    } else {
        lemma_codes_equal(a.skip(1), b.skip(1));
        if a[0] == b[0] && a.skip(1) == b.skip(1) {
            assert(a =~= seq![a[0]] + a.skip(1));
            assert(b =~= seq![b[0]] + b.skip(1));
        }
    }
}

/// Turning a comparison round swaps less and greater.
pub proof fn lemma_codes_flip(a: Seq<u64>, b: Seq<u64>)
    ensures
        codes_order(a, b) == Rank::Less <==> codes_order(b, a) == Rank::Greater,
    decreases a.len(),
{
    if a.len() > 0 && b.len() > 0 {
        lemma_codes_flip(a.skip(1), b.skip(1));
    }
}

/// The order on rows is transitive.
pub proof fn lemma_codes_transitive(a: Seq<u64>, b: Seq<u64>, c: Seq<u64>)
    requires
        codes_order(a, b) != Rank::Greater,
        codes_order(b, c) != Rank::Greater,
    ensures
        codes_order(a, c) != Rank::Greater,
        codes_order(a, b) == Rank::Less || codes_order(b, c) == Rank::Less ==> codes_order(a, c)
            == Rank::Less,
    decreases a.len(),
{
    if a.len() > 0 && b.len() > 0 && c.len() > 0 {
        if a[0] == b[0] && b[0] == c[0] {
            lemma_codes_transitive(a.skip(1), b.skip(1), c.skip(1));
        }
    }
}

/// Lists are equal in the order exactly where they are the same.
pub proof fn lemma_lists_equal(a: Seq<Seq<u64>>, b: Seq<Seq<u64>>)
    ensures
        lists_order(a, b) == Rank::Equal <==> a == b,
    decreases a.len(),
{
    if a.len() == 0 || b.len() == 0 {
        assert(a.len() == b.len() ==> a =~= b);
    } else {
        lemma_codes_equal(a[0], b[0]);
        lemma_lists_equal(a.skip(1), b.skip(1));
        if a[0] == b[0] && a.skip(1) == b.skip(1) {
            assert(a =~= seq![a[0]] + a.skip(1));
            assert(b =~= seq![b[0]] + b.skip(1));
        }
    }
}

/// Turning a comparison of lists round swaps less and greater.
pub proof fn lemma_lists_flip(a: Seq<Seq<u64>>, b: Seq<Seq<u64>>)
    ensures
        lists_order(a, b) == Rank::Less <==> lists_order(b, a) == Rank::Greater,
    decreases a.len(),
{
    if a.len() > 0 && b.len() > 0 {
        lemma_codes_flip(a[0], b[0]);
        lemma_codes_flip(b[0], a[0]);
        lemma_codes_equal(a[0], b[0]);
        lemma_codes_equal(b[0], a[0]);
        lemma_lists_flip(a.skip(1), b.skip(1));
    }
}

/// The order on lists is transitive.
pub proof fn lemma_lists_transitive(a: Seq<Seq<u64>>, b: Seq<Seq<u64>>, c: Seq<Seq<u64>>)
    requires
        lists_order(a, b) != Rank::Greater,
        lists_order(b, c) != Rank::Greater,
    ensures
        lists_order(a, c) != Rank::Greater,
        lists_order(a, b) == Rank::Less || lists_order(b, c) == Rank::Less ==> lists_order(a, c)
            == Rank::Less,
    decreases a.len(),
{
    if a.len() > 0 && b.len() > 0 && c.len() > 0 {
        lemma_codes_transitive(a[0], b[0], c[0]);
        lemma_codes_equal(a[0], b[0]);
        lemma_codes_equal(b[0], c[0]);
        lemma_codes_equal(a[0], c[0]);
        if a[0] == b[0] && b[0] == c[0] {
            lemma_lists_transitive(a.skip(1), b.skip(1), c.skip(1));
        }
    }
}

/// Characters are ordered like their code points.
pub proof fn lemma_code_of_char(c: char, d: char)
    ensures
        c as u64 == d as u64 <==> c == d,
        (c as u64) < (d as u64) <==> c < d,
{
}

/// Texts with the same code points are the same.
pub proof fn lemma_codes_of_text(a: Seq<char>, b: Seq<char>)
    ensures
        codes(a) == codes(b) <==> a == b,
{
    if codes(a) == codes(b) {
        assert(codes(a).len() == a.len() && codes(b).len() == b.len());
        assert forall|i: int| 0 <= i < a.len() implies a[i] == b[i] by {
            assert(codes(a)[i] == a[i] as u64);
            assert(codes(b)[i] == b[i] as u64);
            lemma_code_of_char(a[i], b[i]);
        }
        assert(a =~= b);
    }
}

/// Of two texts, either they are the same or exactly one stands before the other.
pub proof fn lemma_text_order(a: Seq<char>, b: Seq<char>)
    ensures
        a == b ==> !text_before(a, b),
        a != b ==> (text_before(a, b) <==> !text_before(b, a)),
{
    lemma_codes_of_text(a, b);
    lemma_codes_equal(codes(a), codes(b));
    lemma_codes_equal(codes(b), codes(a));
    lemma_codes_flip(codes(a), codes(b));
    lemma_codes_flip(codes(b), codes(a));
}

/// The order on texts is transitive.
pub proof fn lemma_text_transitive(a: Seq<char>, b: Seq<char>, c: Seq<char>)
    requires
        text_before(a, b),
        text_before(b, c),
    ensures
        text_before(a, c),
{
    lemma_codes_transitive(codes(a), codes(b), codes(c));
}

/// The code points of a text.
pub fn code_points(s: &str) -> (points: Vec<u64>)
    ensures
        points@ == codes(s@),
{
    let chars: Vec<char> = chars_of(s);
    let mut points: Vec<u64> = Vec::new();
    let mut i: usize = 0;
    while i < chars.len()
        invariant
            i <= chars.len(),
            chars@ == s@,
            points@ =~= codes(s@).take(i as int),
        decreases chars.len() - i,
    {
        points.push(chars[i] as u64);
        i = i + 1;
    }
    assert(points@ =~= codes(s@));
    points
}

/// Compares two rows of numbers.
pub fn rank_codes(a: &Vec<u64>, b: &Vec<u64>) -> (rank: Rank)
    ensures
        rank == codes_order(a@, b@),
{
    let mut i: usize = 0;
    assert(a@.skip(0) =~= a@);
    assert(b@.skip(0) =~= b@);
    while i < a.len() && i < b.len()
        invariant
            i <= a.len(),
            i <= b.len(),
            codes_order(a@, b@) == codes_order(a@.skip(i as int), b@.skip(i as int)),
        decreases a.len() - i,
    {
        if a[i] < b[i] {
            return Rank::Less;
        }
        if a[i] > b[i] {
            return Rank::Greater;
        }
        assert(a@.skip(i as int).skip(1) =~= a@.skip(i + 1));
        assert(b@.skip(i as int).skip(1) =~= b@.skip(i + 1));
        i = i + 1;
    }
    if i < a.len() {
        Rank::Greater
    } else if i < b.len() {
        Rank::Less
    } else {
        Rank::Equal
    }
}

/// Compares two texts by their code points.
pub fn rank_texts(a: &str, b: &str) -> (rank: Rank)
    ensures
        rank == codes_order(codes(a@), codes(b@)),
{
    let x: Vec<u64> = code_points(a);
    let y: Vec<u64> = code_points(b);
    rank_codes(&x, &y)
}

/// A sort key: rows of numbers, compared row by row.
pub struct SortKey {
    pub rows: Vec<Vec<u64>>,
}

impl View for SortKey {
    type V = Seq<Seq<u64>>;

    open spec fn view(&self) -> Seq<Seq<u64>> {
        self.rows@.map_values(|row: Vec<u64>| row@)
    }
}

/// Compares two sort keys.
pub fn rank_keys(a: &SortKey, b: &SortKey) -> (rank: Rank)
    ensures
        rank == lists_order(a@, b@),
{
    let mut i: usize = 0;
    assert(a@.skip(0) =~= a@);
    assert(b@.skip(0) =~= b@);
    while i < a.rows.len() && i < b.rows.len()
        invariant
            i <= a.rows.len(),
            i <= b.rows.len(),
            lists_order(a@, b@) == lists_order(a@.skip(i as int), b@.skip(i as int)),
        decreases a.rows.len() - i,
    {
        assert(a@.skip(i as int)[0] == a.rows@[i as int]@);
        assert(b@.skip(i as int)[0] == b.rows@[i as int]@);
        let rank: Rank = rank_codes(&a.rows[i], &b.rows[i]);
        if rank != Rank::Equal {
            return rank;
        }
        assert(a@.skip(i as int).skip(1) =~= a@.skip(i + 1));
        assert(b@.skip(i as int).skip(1) =~= b@.skip(i + 1));
        i = i + 1;
    }
    if i < a.rows.len() {
        Rank::Greater
    } else if i < b.rows.len() {
        Rank::Less
    } else {
        Rank::Equal
    }
}

/// The views of a sequence of sort keys.
pub open spec fn key_views(keys: Seq<SortKey>) -> Seq<Seq<Seq<u64>>> {
    keys.map_values(|key: SortKey| key@)
}

/// Puts position `p` behind every position of `order` whose key is not greater than its own,
/// seen from the end.
pub open spec fn with_position(keys: Seq<Seq<Seq<u64>>>, order: Seq<int>, p: int) -> Seq<int>
    decreases order.len(),
{
    if order.len() == 0 || lists_order(keys[order.last()], keys[p]) != Rank::Greater {
        order.push(p)
    } else {
        with_position(keys, order.drop_last(), p).push(order.last())
    }
}

/// The positions of the first `n` keys in ascending order of the keys, equal keys in the order in
/// which they came.
pub open spec fn sorted_positions(keys: Seq<Seq<Seq<u64>>>, n: nat) -> Seq<int>
    decreases n,
{
    if n == 0 {
        Seq::empty()
    } else {
        with_position(keys, sorted_positions(keys, (n - 1) as nat), n - 1)
    }
}

/// The positions of a list of indices, as integers.
pub open spec fn as_positions(order: Seq<usize>) -> Seq<int> {
    order.map_values(|p: usize| p as int)
}

/// Sorts positions by their keys, keeping equal keys in the order in which they came.
pub fn sort_positions(keys: &Vec<SortKey>) -> (order: Vec<usize>)
    ensures
        as_positions(order@) == sorted_positions(key_views(keys@), keys@.len()),
        order@.len() == keys@.len(),
        forall|i: int| 0 <= i < order@.len() ==> 0 <= #[trigger] order@[i] < keys@.len(),
{
    let ghost views = key_views(keys@);
    let mut order: Vec<usize> = Vec::new();
    let mut p: usize = 0;
    assert(as_positions(order@) =~= sorted_positions(views, 0));
    while p < keys.len()
        invariant
            p <= keys.len(),
            views == key_views(keys@),
            order@.len() == p,
            forall|i: int| 0 <= i < order@.len() ==> 0 <= #[trigger] order@[i] < p,
            as_positions(order@) == sorted_positions(views, p as nat),
        decreases keys.len() - p,
    {
        let ghost before = as_positions(order@);
        let mut at: usize = order.len();
        assert(before.take(at as int) =~= before);
        assert(before.skip(at as int) =~= Seq::<int>::empty());
        assert(with_position(views, before, p as int) =~= with_position(
            views,
            before.take(at as int),
            p as int,
        ) + before.skip(at as int));
        while at > 0 && rank_keys(&keys[order[at - 1]], &keys[p]) == Rank::Greater
            invariant
                at <= order.len(),
                order@.len() == p,
                p < keys.len(),
                views == key_views(keys@),
                before == as_positions(order@),
                forall|i: int| 0 <= i < order@.len() ==> 0 <= #[trigger] order@[i] < p,
                with_position(views, before, p as int) == with_position(
                    views,
                    before.take(at as int),
                    p as int,
                ) + before.skip(at as int),
            decreases at,
        {
            assert(before.take(at as int).last() == order@[at - 1]);
            assert(before.take(at as int).drop_last() =~= before.take(at - 1));
            assert(with_position(views, before.take(at as int), p as int) + before.skip(at as int)
                =~= with_position(views, before.take(at - 1), p as int) + before.skip(at - 1));
            at = at - 1;
        }
        proof {
            if at > 0 {
                assert(before.take(at as int).last() == order@[at - 1]);
            }
        }
        order.insert(at, p);
        assert(as_positions(order@) =~= before.take(at as int).push(p as int) + before.skip(
            at as int,
        ));
        p = p + 1;
    }
    order
}

/// Whether position `a` comes before position `b` in a stable sort: by its key, then by where it
/// stood.
pub open spec fn in_order(keys: Seq<Seq<Seq<u64>>>, a: int, b: int) -> bool {
    &&& lists_order(keys[a], keys[b]) != Rank::Greater
    &&& lists_order(keys[a], keys[b]) == Rank::Equal ==> a < b
}

/// Whether `order` lists positions below `n`, each before those that a stable sort puts after it.
pub open spec fn is_ordered(keys: Seq<Seq<Seq<u64>>>, order: Seq<int>, n: int) -> bool {
    &&& forall|i: int| 0 <= i < order.len() ==> 0 <= #[trigger] order[i] < n
    &&& forall|i: int, j: int|
        0 <= i < j < order.len() ==> in_order(keys, #[trigger] order[i], #[trigger] order[j])
}

proof fn lemma_with_position(keys: Seq<Seq<Seq<u64>>>, order: Seq<int>, p: int)
    requires
        is_ordered(keys, order, p),
        0 <= p,
    ensures
        is_ordered(keys, with_position(keys, order, p), p + 1),
        with_position(keys, order, p).len() == order.len() + 1,
        forall|x: int| #[trigger]
            with_position(keys, order, p).contains(x) ==> x == p || order.contains(x),
    decreases order.len(),
{
    let result = with_position(keys, order, p);
    if order.len() == 0 || lists_order(keys[order.last()], keys[p]) != Rank::Greater {
        assert forall|i: int, j: int| 0 <= i < j < result.len() implies in_order(
            keys,
            #[trigger] result[i],
            #[trigger] result[j],
        ) by {
            if j == order.len() {
                if i < order.len() - 1 {
                    assert(in_order(keys, order[i], order[order.len() - 1]));
                    lemma_lists_transitive(keys[order[i]], keys[order.last()], keys[p]);
                }
                lemma_lists_equal(keys[order[i]], keys[p]);
            } else {
                assert(in_order(keys, order[i], order[j]));
            }
        }
        assert forall|x: int| #[trigger] result.contains(x) implies x == p || order.contains(x) by {
            let k = choose|k: int| 0 <= k < result.len() && result[k] == x;
            if k < order.len() {
                assert(order[k] == x);
            }
        }
    } else {
        let front = order.drop_last();
        assert(is_ordered(keys, front, p)) by {
            assert forall|i: int| 0 <= i < front.len() implies 0 <= #[trigger] front[i] < p by {
                assert(front[i] == order[i]);
            }
            assert forall|i: int, j: int| 0 <= i < j < front.len() implies in_order(
                keys,
                #[trigger] front[i],
                #[trigger] front[j],
            ) by {
                assert(in_order(keys, order[i], order[j]));
            }
        }
        lemma_with_position(keys, front, p);
        let placed = with_position(keys, front, p);
        lemma_lists_flip(keys[p], keys[order.last()]);
        assert forall|i: int, j: int| 0 <= i < j < result.len() implies in_order(
            keys,
            #[trigger] result[i],
            #[trigger] result[j],
        ) by {
            if j == placed.len() {
                assert(placed.contains(placed[i]));
                assert(result[i] == placed[i] && result[j] == order.last());
                if placed[i] != p {
                    assert(front.contains(placed[i]));
                    let k = choose|k: int| 0 <= k < front.len() && front[k] == placed[i];
                    assert(in_order(keys, order[k], order[order.len() - 1]));
                }
            } else {
                assert(in_order(keys, placed[i], placed[j]));
            }
        }
        assert forall|x: int| #[trigger] result.contains(x) implies x == p || order.contains(x) by {
            let k = choose|k: int| 0 <= k < result.len() && result[k] == x;
            if k < placed.len() {
                assert(placed[k] == x);
                assert(placed.contains(x));
                if x != p {
                    let m = choose|m: int| 0 <= m < front.len() && front[m] == x;
                    assert(order[m] == x);
                }
            } else {
                assert(order[order.len() - 1] == x);
            }
        }
    }
}

/// The sort lists every position once, in ascending order of the keys, and keeps positions with
/// equal keys in the order in which they came.
pub proof fn law_sort_is_stable(keys: Seq<Seq<Seq<u64>>>, n: nat)
    ensures
        sorted_positions(keys, n).len() == n,
        is_ordered(keys, sorted_positions(keys, n), n as int),
        sorted_positions(keys, n).no_duplicates(),
        forall|p: int| 0 <= p < n <==> #[trigger] sorted_positions(keys, n).contains(p),
    decreases n,
{
    lemma_positions_ordered(keys, n);
    let order = sorted_positions(keys, n);
    assert forall|i: int, j: int| 0 <= i < j < order.len() implies order[i] != order[j] by {
        assert(in_order(keys, order[i], order[j]));
        lemma_lists_equal(keys[order[i]], keys[order[j]]);
    }
    lemma_positions_complete(keys, n);
}

proof fn lemma_positions_ordered(keys: Seq<Seq<Seq<u64>>>, n: nat)
    ensures
        sorted_positions(keys, n).len() == n,
        is_ordered(keys, sorted_positions(keys, n), n as int),
    decreases n,
{
    if n > 0 {
        lemma_positions_ordered(keys, (n - 1) as nat);
        lemma_with_position(keys, sorted_positions(keys, (n - 1) as nat), n - 1);
    }
}

proof fn lemma_with_position_keeps(keys: Seq<Seq<Seq<u64>>>, order: Seq<int>, p: int, x: int)
    requires
        x == p || order.contains(x),
    ensures
        with_position(keys, order, p).contains(x),
    decreases order.len(),
{
    let result = with_position(keys, order, p);
    if order.len() == 0 || lists_order(keys[order.last()], keys[p]) != Rank::Greater {
        if x == p {
            assert(result[order.len() as int] == x);
        } else {
            let k = choose|k: int| 0 <= k < order.len() && order[k] == x;
            assert(result[k] == x);
        }
    } else {
        let front = order.drop_last();
        let placed = with_position(keys, front, p);
        if x == p || front.contains(x) {
            lemma_with_position_keeps(keys, front, p, x);
            let k = choose|k: int| 0 <= k < placed.len() && placed[k] == x;
            assert(result[k] == x);
        } else {
            let k = choose|k: int| 0 <= k < order.len() && order[k] == x;
            assert(k == order.len() - 1) by {
                if k < order.len() - 1 {
                    assert(front[k] == x);
                }
            }
            assert(result[placed.len() as int] == x);
        }
    }
}

proof fn lemma_positions_complete(keys: Seq<Seq<Seq<u64>>>, n: nat)
    ensures
        forall|p: int| 0 <= p < n <==> #[trigger] sorted_positions(keys, n).contains(p),
    decreases n,
{
    lemma_positions_ordered(keys, n);
    if n > 0 {
        lemma_positions_complete(keys, (n - 1) as nat);
        let before = sorted_positions(keys, (n - 1) as nat);
        assert forall|p: int| 0 <= p < n implies #[trigger] sorted_positions(keys, n).contains(
            p,
        ) by {
            if p < n - 1 {
                assert(before.contains(p));
            }
            lemma_with_position_keeps(keys, before, n - 1, p);
        }
    }
}

} // verus!
