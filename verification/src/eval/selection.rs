//! Laws of the evaluations that pick the best five cards out of several: the
//! order in which the cards are given does not matter, and the Omaha rule
//! only narrows the choice.

use crate::cards::card::Card;
use crate::eval::evaluator::{best_over, combo5, is_combo5, omaha_combo, pick5};
use crate::eval::order::{lemma_hand_value_order, lemma_map_multiset};
use crate::eval::ranking::hand_value;
use vstd::prelude::*;
use vstd::relations::{sorted_by, total_ordering};

verus! {

/// Each card of `h1` sits in `h2` at the position that `q` gives, and no
/// position is given twice.
pub open spec fn places(h1: Seq<Card>, h2: Seq<Card>, q: Seq<int>) -> bool {
    &&& q.len() == h1.len()
    &&& forall|i: int| 0 <= i < q.len() ==> 0 <= #[trigger] q[i] < h2.len() && h2[q[i]] == h1[i]
    &&& forall|i: int, j: int| 0 <= i < j < q.len() ==> q[i] != q[j]
}

/// `h2` holds the cards of `h1` reordered: the card at `i` in `h1` is at
/// `p[i]` in `h2`.
pub open spec fn is_reordering(h1: Seq<Card>, h2: Seq<Card>, p: Seq<int>) -> bool {
    h1.len() == h2.len() && places(h1, h2, p)
}

/// Different positions in `lo..hi`, put in increasing order.
proof fn lemma_sort_positions(d: Seq<int>, lo: int, hi: int) -> (c: Seq<int>)
    requires
        forall|i: int| 0 <= i < d.len() ==> lo <= #[trigger] d[i] < hi,
        forall|i: int, j: int| 0 <= i < j < d.len() ==> d[i] != d[j],
    ensures
        c.len() == d.len(),
        c.to_multiset() == d.to_multiset(),
        forall|i: int| 0 <= i < c.len() ==> lo <= #[trigger] c[i] < hi,
        forall|i: int, j: int| 0 <= i < j < c.len() ==> c[i] < c[j],
{
    broadcast use vstd::seq_lib::group_to_multiset_ensures;

    let leq = |a: int, b: int| a <= b;
    assert(total_ordering(leq));
    d.lemma_sort_by_ensures(leq);
    let c = d.sort_by(leq);
    vstd::seq_lib::to_multiset_len(c);
    vstd::seq_lib::to_multiset_len(d);
    assert(d.no_duplicates());
    d.lemma_multiset_has_no_duplicates();
    c.lemma_multiset_has_no_duplicates_conv();
    assert forall|i: int| 0 <= i < c.len() implies lo <= #[trigger] c[i] < hi by {
        assert(c.contains(c[i]));
        assert(d.to_multiset().count(c[i]) > 0);
        assert(d.contains(c[i]));
    }
    assert forall|i: int, j: int| 0 <= i < j < c.len() implies c[i] < c[j] by {
        assert(leq(c[i], c[j]));
    }
    c
}

/// A five-card choice of `h1` has a five-card choice of `h2` with the same
/// value, when each card of `h1` sits somewhere in `h2`.
proof fn lemma_choice_carried(h1: Seq<Card>, h2: Seq<Card>, q: Seq<int>, c: Seq<int>) -> (c2: Seq<
    int,
>)
    requires
        places(h1, h2, q),
        is_combo5(h1.len() as int, c),
    ensures
        is_combo5(h2.len() as int, c2),
        hand_value(pick5(h2, c2)) == hand_value(pick5(h1, c)),
{
    let d = c.map_values(|i: int| q[i]);
    assert forall|i: int| 0 <= i < 5 implies 0 <= #[trigger] c[i] < h1.len() by {
        if i > 0 {
            assert(c[0] < c[i]);
        }
        if i < 4 {
            assert(c[i] < c[4]);
        }
    }
    assert forall|i: int, j: int| 0 <= i < j < d.len() implies d[i] != d[j] by {
        assert(c[i] < c[j]);
    }
    let c2 = lemma_sort_positions(d, 0, h2.len() as int);
    let g = |i: int| h2[i];
    lemma_map_multiset(d, c2, g);
    assert(pick5(h2, c2) =~= c2.map_values(g));
    assert(pick5(h1, c) =~= d.map_values(g));
    lemma_hand_value_order(pick5(h1, c), pick5(h2, c2));
    c2
}

/// The best five-card value of `h1` is at most that of `h2` when each card
/// of `h1` sits somewhere in `h2`.
proof fn lemma_best_placed(h1: Seq<Card>, h2: Seq<Card>, q: Seq<int>, v1: int, v2: int)
    requires
        places(h1, h2, q),
        best_over(h1, combo5(h1.len() as int), v1),
        best_over(h2, combo5(h2.len() as int), v2),
    ensures
        v1 <= v2,
{
    let c = choose|c: Seq<int>| combo5(h1.len() as int)(c) && v1 == hand_value(#[trigger] pick5(h1, c));
    let c2 = lemma_choice_carried(h1, h2, q, c);
    assert(combo5(h2.len() as int)(c2));
}

/// A reordering of `n` cards reaches every position: it can be undone.
proof fn lemma_reordering_undone(h1: Seq<Card>, h2: Seq<Card>, p: Seq<int>) -> (q: Seq<int>)
    requires
        is_reordering(h1, h2, p),
    ensures
        is_reordering(h2, h1, q),
{
    broadcast use vstd::set::group_set_axioms;

    let n = h1.len() as int;
    let range = vstd::set_lib::set_int_range(0, n);
    vstd::set_lib::lemma_int_range(0, n);
    assert(p.no_duplicates());
    p.unique_seq_to_set();
    assert(p.to_set().subset_of(range));
    vstd::set_lib::lemma_len_subset(p.to_set(), range);
    vstd::set_lib::lemma_subset_equality(p.to_set(), range);
    let q = Seq::new(n as nat, |j: int| choose|i: int| 0 <= i < n && p[i] == j);
    assert forall|j: int| 0 <= j < n implies 0 <= #[trigger] q[j] < n && p[q[j]] == j by {
        assert(range.contains(j));
        assert(p.to_set().contains(j));
        assert(p.contains(j));
    }
    assert forall|j: int| 0 <= j < q.len() implies 0 <= #[trigger] q[j] < h1.len() && h1[q[j]]
        == h2[j] by {
        assert(p[q[j]] == j);
    }
    assert forall|i: int, j: int| 0 <= i < j < q.len() implies q[i] != q[j] by {
        assert(p[q[i]] == i && p[q[j]] == j);
    }
    q
}

/// The best five cards of several do not depend on the order in which the
/// cards are given: reordered cards have the same best value.
pub proof fn lemma_best_of_n_order(h1: Seq<Card>, h2: Seq<Card>, p: Seq<int>, v1: int, v2: int)
    requires
        is_reordering(h1, h2, p),
        best_over(h1, combo5(h1.len() as int), v1),
        best_over(h2, combo5(h2.len() as int), v2),
    ensures
        v1 == v2,
{
    lemma_best_placed(h1, h2, p, v1, v2);
    let q = lemma_reordering_undone(h1, h2, p);
    lemma_best_placed(h2, h1, q, v2, v1);
}

/// The best five of seven cards do not depend on the order of the seven.
pub proof fn lemma_best_of_seven_order(h1: Seq<Card>, h2: Seq<Card>, p: Seq<int>, v1: int, v2: int)
    requires
        h1.len() == 7,
        is_reordering(h1, h2, p),
        best_over(h1, combo5(7), v1),
        best_over(h2, combo5(7), v2),
    ensures
        v1 == v2,
{
    lemma_best_of_n_order(h1, h2, p, v1, v2);
}

/// An Omaha choice of one hand has an Omaha choice of the same value in a
/// hand whose hole cards and board cards sit, each among their own kind, at
/// the positions that `p` and `b` give.
proof fn lemma_omaha_choice_carried(
    hole1: Seq<Card>,
    board1: Seq<Card>,
    hole2: Seq<Card>,
    board2: Seq<Card>,
    p: Seq<int>,
    b: Seq<int>,
    c: Seq<int>,
) -> (c2: Seq<int>)
    requires
        hole1.len() == 4,
        board1.len() == 5,
        is_reordering(hole1, hole2, p),
        is_reordering(board1, board2, b),
        omaha_combo()(c),
    ensures
        omaha_combo()(c2),
        hand_value(pick5(hole2 + board2, c2)) == hand_value(pick5(hole1 + board1, c)),
{
    let h1 = hole1 + board1;
    let h2 = hole2 + board2;
    let q = |i: int| if i < 4 { p[i] } else { 4 + b[i - 4] };
    let d = c.map_values(q);
    assert forall|i: int| 0 <= i < 5 implies 0 <= #[trigger] c[i] < 9 by {
        if i > 0 {
            assert(c[0] < c[i]);
        }
        if i < 4 {
            assert(c[i] < c[4]);
        }
    }
    assert(c[0] < 4 && 4 <= c[3] && 4 <= c[4]) by {
        assert(c[0] < c[1] && c[2] < c[3] && c[3] < c[4]);
    }
    let d1 = d.subrange(0, 2);
    let d2 = d.subrange(2, 5);
    assert forall|i: int, j: int| 0 <= i < j < d1.len() implies d1[i] != d1[j] by {
        assert(c[i] < c[j]);
    }
    assert forall|i: int, j: int| 0 <= i < j < d2.len() implies d2[i] != d2[j] by {
        assert(c[i + 2] < c[j + 2]);
    }
    assert forall|i: int| 0 <= i < d2.len() implies 4 <= #[trigger] d2[i] < 9 by {
        assert(d2[i] == 4 + b[c[i + 2] - 4]);
    }
    let e1 = lemma_sort_positions(d1, 0, 4);
    let e2 = lemma_sort_positions(d2, 4, 9);
    let c2 = e1 + e2;
    assert(d =~= d1 + d2);
    vstd::seq_lib::lemma_multiset_commutative(d1, d2);
    vstd::seq_lib::lemma_multiset_commutative(e1, e2);
    assert(c2.to_multiset() == d.to_multiset());
    assert(omaha_combo()(c2)) by {
        assert forall|i: int, j: int| 0 <= i < j < 5 implies c2[i] < c2[j] by {
            if j < 2 {
            } else if i >= 2 {
                assert(e2[i - 2] < e2[j - 2]);
            } else {
                assert(e1[i] < 4 && 4 <= e2[j - 2]);
            }
        }
    }
    let g = |i: int| h2[i];
    lemma_map_multiset(d, c2, g);
    assert(pick5(h2, c2) =~= c2.map_values(g));
    assert(pick5(h1, c) =~= d.map_values(g)) by {
        assert forall|i: int| 0 <= i < 5 implies #[trigger] h2[d[i]] == h1[c[i]] by {
            if c[i] < 4 {
                assert(hole2[p[c[i]]] == hole1[c[i]]);
            } else {
                assert(board2[b[c[i] - 4]] == board1[c[i] - 4]);
            }
        }
    }
    lemma_hand_value_order(pick5(h1, c), pick5(h2, c2));
    c2
}

/// The best Omaha value of one hand is at most that of the same hand with
/// its hole cards and its board cards reordered.
proof fn lemma_omaha_placed(
    hole1: Seq<Card>,
    board1: Seq<Card>,
    hole2: Seq<Card>,
    board2: Seq<Card>,
    p: Seq<int>,
    b: Seq<int>,
    v1: int,
    v2: int,
)
    requires
        hole1.len() == 4,
        board1.len() == 5,
        is_reordering(hole1, hole2, p),
        is_reordering(board1, board2, b),
        best_over(hole1 + board1, omaha_combo(), v1),
        best_over(hole2 + board2, omaha_combo(), v2),
    ensures
        v1 <= v2,
{
    let c = choose|c: Seq<int>| omaha_combo()(c) && v1 == hand_value(#[trigger] pick5(hole1 + board1, c));
    let c2 = lemma_omaha_choice_carried(hole1, board1, hole2, board2, p, b, c);
    assert(hand_value(pick5(hole2 + board2, c2)) <= v2);
}

/// The best Omaha hand does not depend on the order of the hole cards nor
/// on the order of the board cards.
pub proof fn lemma_omaha_order(
    hole1: Seq<Card>,
    board1: Seq<Card>,
    hole2: Seq<Card>,
    board2: Seq<Card>,
    p: Seq<int>,
    b: Seq<int>,
    v1: int,
    v2: int,
)
    requires
        hole1.len() == 4,
        board1.len() == 5,
        is_reordering(hole1, hole2, p),
        is_reordering(board1, board2, b),
        best_over(hole1 + board1, omaha_combo(), v1),
        best_over(hole2 + board2, omaha_combo(), v2),
    ensures
        v1 == v2,
{
    lemma_omaha_placed(hole1, board1, hole2, board2, p, b, v1, v2);
    let p2 = lemma_reordering_undone(hole1, hole2, p);
    let b2 = lemma_reordering_undone(board1, board2, b);
    lemma_omaha_placed(hole2, board2, hole1, board1, p2, b2, v2, v1);
}

/// The best Omaha hand is never better than the best five of the same nine
/// cards chosen freely: the Omaha rule only narrows the choice.
pub proof fn lemma_omaha_at_most_free_choice(h: Seq<Card>, v_omaha: int, v_free: int)
    requires
        h.len() == 9,
        best_over(h, omaha_combo(), v_omaha),
        best_over(h, combo5(h.len() as int), v_free),
    ensures
        v_omaha <= v_free,
{
    let c = choose|c: Seq<int>| omaha_combo()(c) && v_omaha == hand_value(#[trigger] pick5(h, c));
    assert(combo5(h.len() as int)(c));
}

} // verus!
