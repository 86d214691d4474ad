//! The range of the score: the written-out forms of the counting
//! functions over a five-card combination, and the bounds they obey.

use vstd::prelude::*;

use crate::cards::{rank_of, value_of, Card, Hand, Number};
use crate::score::{
    fifteen_count, five_cards, flush_points, knob_points, matches_in, pair_count, rank_count,
    rank_count_sum, run_len_from, run_points, run_points_from, run_product, spec_score,
    suit_uniform, lemma_run_len_from_bounds, lemma_run_ranks_present, lemma_run_product_bound,
    lemma_rank_window_le_len, lemma_rank_count_sum_split, lemma_rank_count_sum_nonneg,
    lemma_run_points_from_zero, lemma_rank_count_bound,
};

verus! {

/// One when the target is hit, zero otherwise.
spec fn ind(t: int, v: int) -> int {
    if t == v {
        1
    } else {
        0
    }
}

/// The number of ways five face values give a subset of two or more cards
/// summing to fifteen, written out subset by subset.
#[verifier::opaque]
spec fn fifteen_form(v0: int, v1: int, v2: int, v3: int, v4: int) -> int {
    ind(15, v0 + v1) + ind(15, v0 + v2) + ind(15, v0 + v3) + ind(15, v0 + v4) + ind(15, v1 + v2) + ind(15, v1 + v3) + ind(15, v1 + v4) + ind(15, v2 + v3) + ind(15, v2 + v4) + ind(15, v3 + v4) + ind(15, v0 + v1 + v2) + ind(15, v0 + v1 + v3) + ind(15, v0 + v1 + v4) + ind(15, v0 + v2 + v3) + ind(15, v0 + v2 + v4) + ind(15, v0 + v3 + v4) + ind(15, v1 + v2 + v3) + ind(15, v1 + v2 + v4) + ind(15, v1 + v3 + v4) + ind(15, v2 + v3 + v4) + ind(15, v0 + v1 + v2 + v3) + ind(15, v0 + v1 + v2 + v4) + ind(15, v0 + v1 + v3 + v4) + ind(15, v0 + v2 + v3 + v4) + ind(15, v1 + v2 + v3 + v4) + ind(15, v0 + v1 + v2 + v3 + v4)
}

#[verifier::rlimit(100)]
proof fn lemma_ground1(s: Seq<Card>)
    requires
        s.len() == 5,
    ensures
        (fifteen_count(s.take(1), 15) == ind(15, 0) + ind(15, value_of(s[0].number))),
        (fifteen_count(s.take(1), 15 - value_of(s[1].number)) == ind(15, value_of(s[1].number)) + ind(15, value_of(s[0].number) + value_of(s[1].number))),
        (fifteen_count(s.take(1), 15 - value_of(s[2].number)) == ind(15, value_of(s[2].number)) + ind(15, value_of(s[0].number) + value_of(s[2].number))),
        (fifteen_count(s.take(1), 15 - value_of(s[3].number)) == ind(15, value_of(s[3].number)) + ind(15, value_of(s[0].number) + value_of(s[3].number))),
        (fifteen_count(s.take(1), 15 - value_of(s[4].number)) == ind(15, value_of(s[4].number)) + ind(15, value_of(s[0].number) + value_of(s[4].number))),
        (fifteen_count(s.take(1), 15 - value_of(s[2].number) - value_of(s[1].number)) == ind(15, value_of(s[1].number) + value_of(s[2].number)) + ind(15, value_of(s[0].number) + value_of(s[1].number) + value_of(s[2].number))),
        (fifteen_count(s.take(1), 15 - value_of(s[3].number) - value_of(s[1].number)) == ind(15, value_of(s[1].number) + value_of(s[3].number)) + ind(15, value_of(s[0].number) + value_of(s[1].number) + value_of(s[3].number))),
        (fifteen_count(s.take(1), 15 - value_of(s[4].number) - value_of(s[1].number)) == ind(15, value_of(s[1].number) + value_of(s[4].number)) + ind(15, value_of(s[0].number) + value_of(s[1].number) + value_of(s[4].number))),
        (fifteen_count(s.take(1), 15 - value_of(s[3].number) - value_of(s[2].number)) == ind(15, value_of(s[2].number) + value_of(s[3].number)) + ind(15, value_of(s[0].number) + value_of(s[2].number) + value_of(s[3].number))),
        (fifteen_count(s.take(1), 15 - value_of(s[4].number) - value_of(s[2].number)) == ind(15, value_of(s[2].number) + value_of(s[4].number)) + ind(15, value_of(s[0].number) + value_of(s[2].number) + value_of(s[4].number))),
        (fifteen_count(s.take(1), 15 - value_of(s[4].number) - value_of(s[3].number)) == ind(15, value_of(s[3].number) + value_of(s[4].number)) + ind(15, value_of(s[0].number) + value_of(s[3].number) + value_of(s[4].number))),
        (fifteen_count(s.take(1), 15 - value_of(s[3].number) - value_of(s[2].number) - value_of(s[1].number)) == ind(15, value_of(s[1].number) + value_of(s[2].number) + value_of(s[3].number)) + ind(15, value_of(s[0].number) + value_of(s[1].number) + value_of(s[2].number) + value_of(s[3].number))),
        (fifteen_count(s.take(1), 15 - value_of(s[4].number) - value_of(s[2].number) - value_of(s[1].number)) == ind(15, value_of(s[1].number) + value_of(s[2].number) + value_of(s[4].number)) + ind(15, value_of(s[0].number) + value_of(s[1].number) + value_of(s[2].number) + value_of(s[4].number))),
        (fifteen_count(s.take(1), 15 - value_of(s[4].number) - value_of(s[3].number) - value_of(s[1].number)) == ind(15, value_of(s[1].number) + value_of(s[3].number) + value_of(s[4].number)) + ind(15, value_of(s[0].number) + value_of(s[1].number) + value_of(s[3].number) + value_of(s[4].number))),
        (fifteen_count(s.take(1), 15 - value_of(s[4].number) - value_of(s[3].number) - value_of(s[2].number)) == ind(15, value_of(s[2].number) + value_of(s[3].number) + value_of(s[4].number)) + ind(15, value_of(s[0].number) + value_of(s[2].number) + value_of(s[3].number) + value_of(s[4].number))),
        (fifteen_count(s.take(1), 15 - value_of(s[4].number) - value_of(s[3].number) - value_of(s[2].number) - value_of(s[1].number)) == ind(15, value_of(s[1].number) + value_of(s[2].number) + value_of(s[3].number) + value_of(s[4].number)) + ind(15, value_of(s[0].number) + value_of(s[1].number) + value_of(s[2].number) + value_of(s[3].number) + value_of(s[4].number))),
{
    let v0 = value_of(s[0].number);
    let v1 = value_of(s[1].number);
    let v2 = value_of(s[2].number);
    let v3 = value_of(s[3].number);
    let v4 = value_of(s[4].number);
    assert(s.take(1).drop_last() =~= s.take(0));
    assert(s.take(1).last() == s[0]);
    assert(s.take(0).len() == 0);
    assert(fifteen_count(s.take(0), 15) == ind(15, 0));
    assert(fifteen_count(s.take(0), 15 - v0) == ind(15, v0));
    assert(fifteen_count(s.take(1), 15) == fifteen_count(s.take(0), 15) + fifteen_count(s.take(0), 15 - v0));
    assert(fifteen_count(s.take(0), 15 - v1) == ind(15, v1));
    assert(fifteen_count(s.take(0), 15 - v1 - v0) == ind(15, v0 + v1));
    assert(fifteen_count(s.take(1), 15 - v1) == fifteen_count(s.take(0), 15 - v1) + fifteen_count(s.take(0), 15 - v1 - v0));
    assert(fifteen_count(s.take(0), 15 - v2) == ind(15, v2));
    assert(fifteen_count(s.take(0), 15 - v2 - v0) == ind(15, v0 + v2));
    assert(fifteen_count(s.take(1), 15 - v2) == fifteen_count(s.take(0), 15 - v2) + fifteen_count(s.take(0), 15 - v2 - v0));
    assert(fifteen_count(s.take(0), 15 - v3) == ind(15, v3));
    assert(fifteen_count(s.take(0), 15 - v3 - v0) == ind(15, v0 + v3));
    assert(fifteen_count(s.take(1), 15 - v3) == fifteen_count(s.take(0), 15 - v3) + fifteen_count(s.take(0), 15 - v3 - v0));
    assert(fifteen_count(s.take(0), 15 - v4) == ind(15, v4));
    assert(fifteen_count(s.take(0), 15 - v4 - v0) == ind(15, v0 + v4));
    assert(fifteen_count(s.take(1), 15 - v4) == fifteen_count(s.take(0), 15 - v4) + fifteen_count(s.take(0), 15 - v4 - v0));
    assert(fifteen_count(s.take(0), 15 - v2 - v1) == ind(15, v1 + v2));
    assert(fifteen_count(s.take(0), 15 - v2 - v1 - v0) == ind(15, v0 + v1 + v2));
    assert(fifteen_count(s.take(1), 15 - v2 - v1) == fifteen_count(s.take(0), 15 - v2 - v1) + fifteen_count(s.take(0), 15 - v2 - v1 - v0));
    assert(fifteen_count(s.take(0), 15 - v3 - v1) == ind(15, v1 + v3));
    assert(fifteen_count(s.take(0), 15 - v3 - v1 - v0) == ind(15, v0 + v1 + v3));
    assert(fifteen_count(s.take(1), 15 - v3 - v1) == fifteen_count(s.take(0), 15 - v3 - v1) + fifteen_count(s.take(0), 15 - v3 - v1 - v0));
    assert(fifteen_count(s.take(0), 15 - v4 - v1) == ind(15, v1 + v4));
    assert(fifteen_count(s.take(0), 15 - v4 - v1 - v0) == ind(15, v0 + v1 + v4));
    assert(fifteen_count(s.take(1), 15 - v4 - v1) == fifteen_count(s.take(0), 15 - v4 - v1) + fifteen_count(s.take(0), 15 - v4 - v1 - v0));
    assert(fifteen_count(s.take(0), 15 - v3 - v2) == ind(15, v2 + v3));
    assert(fifteen_count(s.take(0), 15 - v3 - v2 - v0) == ind(15, v0 + v2 + v3));
    assert(fifteen_count(s.take(1), 15 - v3 - v2) == fifteen_count(s.take(0), 15 - v3 - v2) + fifteen_count(s.take(0), 15 - v3 - v2 - v0));
    assert(fifteen_count(s.take(0), 15 - v4 - v2) == ind(15, v2 + v4));
    assert(fifteen_count(s.take(0), 15 - v4 - v2 - v0) == ind(15, v0 + v2 + v4));
    assert(fifteen_count(s.take(1), 15 - v4 - v2) == fifteen_count(s.take(0), 15 - v4 - v2) + fifteen_count(s.take(0), 15 - v4 - v2 - v0));
    assert(fifteen_count(s.take(0), 15 - v4 - v3) == ind(15, v3 + v4));
    assert(fifteen_count(s.take(0), 15 - v4 - v3 - v0) == ind(15, v0 + v3 + v4));
    assert(fifteen_count(s.take(1), 15 - v4 - v3) == fifteen_count(s.take(0), 15 - v4 - v3) + fifteen_count(s.take(0), 15 - v4 - v3 - v0));
    assert(fifteen_count(s.take(0), 15 - v3 - v2 - v1) == ind(15, v1 + v2 + v3));
    assert(fifteen_count(s.take(0), 15 - v3 - v2 - v1 - v0) == ind(15, v0 + v1 + v2 + v3));
    assert(fifteen_count(s.take(1), 15 - v3 - v2 - v1) == fifteen_count(s.take(0), 15 - v3 - v2 - v1) + fifteen_count(s.take(0), 15 - v3 - v2 - v1 - v0));
    assert(fifteen_count(s.take(0), 15 - v4 - v2 - v1) == ind(15, v1 + v2 + v4));
    assert(fifteen_count(s.take(0), 15 - v4 - v2 - v1 - v0) == ind(15, v0 + v1 + v2 + v4));
    assert(fifteen_count(s.take(1), 15 - v4 - v2 - v1) == fifteen_count(s.take(0), 15 - v4 - v2 - v1) + fifteen_count(s.take(0), 15 - v4 - v2 - v1 - v0));
    assert(fifteen_count(s.take(0), 15 - v4 - v3 - v1) == ind(15, v1 + v3 + v4));
    assert(fifteen_count(s.take(0), 15 - v4 - v3 - v1 - v0) == ind(15, v0 + v1 + v3 + v4));
    assert(fifteen_count(s.take(1), 15 - v4 - v3 - v1) == fifteen_count(s.take(0), 15 - v4 - v3 - v1) + fifteen_count(s.take(0), 15 - v4 - v3 - v1 - v0));
    assert(fifteen_count(s.take(0), 15 - v4 - v3 - v2) == ind(15, v2 + v3 + v4));
    assert(fifteen_count(s.take(0), 15 - v4 - v3 - v2 - v0) == ind(15, v0 + v2 + v3 + v4));
    assert(fifteen_count(s.take(1), 15 - v4 - v3 - v2) == fifteen_count(s.take(0), 15 - v4 - v3 - v2) + fifteen_count(s.take(0), 15 - v4 - v3 - v2 - v0));
    assert(fifteen_count(s.take(0), 15 - v4 - v3 - v2 - v1) == ind(15, v1 + v2 + v3 + v4));
    assert(fifteen_count(s.take(0), 15 - v4 - v3 - v2 - v1 - v0) == ind(15, v0 + v1 + v2 + v3 + v4));
    assert(fifteen_count(s.take(1), 15 - v4 - v3 - v2 - v1) == fifteen_count(s.take(0), 15 - v4 - v3 - v2 - v1) + fifteen_count(s.take(0), 15 - v4 - v3 - v2 - v1 - v0));
}

#[verifier::rlimit(100)]
proof fn lemma_ground2(s: Seq<Card>)
    requires
        s.len() == 5,
    ensures
        (fifteen_count(s.take(2), 15) == ind(15, 0) + ind(15, value_of(s[0].number)) + ind(15, value_of(s[1].number)) + ind(15, value_of(s[0].number) + value_of(s[1].number))),
        (fifteen_count(s.take(2), 15 - value_of(s[2].number)) == ind(15, value_of(s[2].number)) + ind(15, value_of(s[0].number) + value_of(s[2].number)) + ind(15, value_of(s[1].number) + value_of(s[2].number)) + ind(15, value_of(s[0].number) + value_of(s[1].number) + value_of(s[2].number))),
        (fifteen_count(s.take(2), 15 - value_of(s[3].number)) == ind(15, value_of(s[3].number)) + ind(15, value_of(s[0].number) + value_of(s[3].number)) + ind(15, value_of(s[1].number) + value_of(s[3].number)) + ind(15, value_of(s[0].number) + value_of(s[1].number) + value_of(s[3].number))),
        (fifteen_count(s.take(2), 15 - value_of(s[4].number)) == ind(15, value_of(s[4].number)) + ind(15, value_of(s[0].number) + value_of(s[4].number)) + ind(15, value_of(s[1].number) + value_of(s[4].number)) + ind(15, value_of(s[0].number) + value_of(s[1].number) + value_of(s[4].number))),
        (fifteen_count(s.take(2), 15 - value_of(s[3].number) - value_of(s[2].number)) == ind(15, value_of(s[2].number) + value_of(s[3].number)) + ind(15, value_of(s[0].number) + value_of(s[2].number) + value_of(s[3].number)) + ind(15, value_of(s[1].number) + value_of(s[2].number) + value_of(s[3].number)) + ind(15, value_of(s[0].number) + value_of(s[1].number) + value_of(s[2].number) + value_of(s[3].number))),
        (fifteen_count(s.take(2), 15 - value_of(s[4].number) - value_of(s[2].number)) == ind(15, value_of(s[2].number) + value_of(s[4].number)) + ind(15, value_of(s[0].number) + value_of(s[2].number) + value_of(s[4].number)) + ind(15, value_of(s[1].number) + value_of(s[2].number) + value_of(s[4].number)) + ind(15, value_of(s[0].number) + value_of(s[1].number) + value_of(s[2].number) + value_of(s[4].number))),
        (fifteen_count(s.take(2), 15 - value_of(s[4].number) - value_of(s[3].number)) == ind(15, value_of(s[3].number) + value_of(s[4].number)) + ind(15, value_of(s[0].number) + value_of(s[3].number) + value_of(s[4].number)) + ind(15, value_of(s[1].number) + value_of(s[3].number) + value_of(s[4].number)) + ind(15, value_of(s[0].number) + value_of(s[1].number) + value_of(s[3].number) + value_of(s[4].number))),
        (fifteen_count(s.take(2), 15 - value_of(s[4].number) - value_of(s[3].number) - value_of(s[2].number)) == ind(15, value_of(s[2].number) + value_of(s[3].number) + value_of(s[4].number)) + ind(15, value_of(s[0].number) + value_of(s[2].number) + value_of(s[3].number) + value_of(s[4].number)) + ind(15, value_of(s[1].number) + value_of(s[2].number) + value_of(s[3].number) + value_of(s[4].number)) + ind(15, value_of(s[0].number) + value_of(s[1].number) + value_of(s[2].number) + value_of(s[3].number) + value_of(s[4].number))),
{
    let v0 = value_of(s[0].number);
    let v1 = value_of(s[1].number);
    let v2 = value_of(s[2].number);
    let v3 = value_of(s[3].number);
    let v4 = value_of(s[4].number);
    lemma_ground1(s);
    assert(s.take(2).drop_last() =~= s.take(1));
    assert(s.take(2).last() == s[1]);
    assert(fifteen_count(s.take(2), 15) == fifteen_count(s.take(1), 15) + fifteen_count(s.take(1), 15 - v1));
    assert(fifteen_count(s.take(2), 15 - v2) == fifteen_count(s.take(1), 15 - v2) + fifteen_count(s.take(1), 15 - v2 - v1));
    assert(fifteen_count(s.take(2), 15 - v3) == fifteen_count(s.take(1), 15 - v3) + fifteen_count(s.take(1), 15 - v3 - v1));
    assert(fifteen_count(s.take(2), 15 - v4) == fifteen_count(s.take(1), 15 - v4) + fifteen_count(s.take(1), 15 - v4 - v1));
    assert(fifteen_count(s.take(2), 15 - v3 - v2) == fifteen_count(s.take(1), 15 - v3 - v2) + fifteen_count(s.take(1), 15 - v3 - v2 - v1));
    assert(fifteen_count(s.take(2), 15 - v4 - v2) == fifteen_count(s.take(1), 15 - v4 - v2) + fifteen_count(s.take(1), 15 - v4 - v2 - v1));
    assert(fifteen_count(s.take(2), 15 - v4 - v3) == fifteen_count(s.take(1), 15 - v4 - v3) + fifteen_count(s.take(1), 15 - v4 - v3 - v1));
    assert(fifteen_count(s.take(2), 15 - v4 - v3 - v2) == fifteen_count(s.take(1), 15 - v4 - v3 - v2) + fifteen_count(s.take(1), 15 - v4 - v3 - v2 - v1));
}

#[verifier::rlimit(100)]
proof fn lemma_ground3(s: Seq<Card>)
    requires
        s.len() == 5,
    ensures
        (fifteen_count(s.take(3), 15) == ind(15, 0) + ind(15, value_of(s[0].number)) + ind(15, value_of(s[1].number)) + ind(15, value_of(s[2].number)) + ind(15, value_of(s[0].number) + value_of(s[1].number)) + ind(15, value_of(s[0].number) + value_of(s[2].number)) + ind(15, value_of(s[1].number) + value_of(s[2].number)) + ind(15, value_of(s[0].number) + value_of(s[1].number) + value_of(s[2].number))),
        (fifteen_count(s.take(3), 15 - value_of(s[3].number)) == ind(15, value_of(s[3].number)) + ind(15, value_of(s[0].number) + value_of(s[3].number)) + ind(15, value_of(s[1].number) + value_of(s[3].number)) + ind(15, value_of(s[2].number) + value_of(s[3].number)) + ind(15, value_of(s[0].number) + value_of(s[1].number) + value_of(s[3].number)) + ind(15, value_of(s[0].number) + value_of(s[2].number) + value_of(s[3].number)) + ind(15, value_of(s[1].number) + value_of(s[2].number) + value_of(s[3].number)) + ind(15, value_of(s[0].number) + value_of(s[1].number) + value_of(s[2].number) + value_of(s[3].number))),
        (fifteen_count(s.take(3), 15 - value_of(s[4].number)) == ind(15, value_of(s[4].number)) + ind(15, value_of(s[0].number) + value_of(s[4].number)) + ind(15, value_of(s[1].number) + value_of(s[4].number)) + ind(15, value_of(s[2].number) + value_of(s[4].number)) + ind(15, value_of(s[0].number) + value_of(s[1].number) + value_of(s[4].number)) + ind(15, value_of(s[0].number) + value_of(s[2].number) + value_of(s[4].number)) + ind(15, value_of(s[1].number) + value_of(s[2].number) + value_of(s[4].number)) + ind(15, value_of(s[0].number) + value_of(s[1].number) + value_of(s[2].number) + value_of(s[4].number))),
        (fifteen_count(s.take(3), 15 - value_of(s[4].number) - value_of(s[3].number)) == ind(15, value_of(s[3].number) + value_of(s[4].number)) + ind(15, value_of(s[0].number) + value_of(s[3].number) + value_of(s[4].number)) + ind(15, value_of(s[1].number) + value_of(s[3].number) + value_of(s[4].number)) + ind(15, value_of(s[2].number) + value_of(s[3].number) + value_of(s[4].number)) + ind(15, value_of(s[0].number) + value_of(s[1].number) + value_of(s[3].number) + value_of(s[4].number)) + ind(15, value_of(s[0].number) + value_of(s[2].number) + value_of(s[3].number) + value_of(s[4].number)) + ind(15, value_of(s[1].number) + value_of(s[2].number) + value_of(s[3].number) + value_of(s[4].number)) + ind(15, value_of(s[0].number) + value_of(s[1].number) + value_of(s[2].number) + value_of(s[3].number) + value_of(s[4].number))),
{
    let v0 = value_of(s[0].number);
    let v1 = value_of(s[1].number);
    let v2 = value_of(s[2].number);
    let v3 = value_of(s[3].number);
    let v4 = value_of(s[4].number);
    lemma_ground2(s);
    assert(s.take(3).drop_last() =~= s.take(2));
    assert(s.take(3).last() == s[2]);
    assert(fifteen_count(s.take(3), 15) == fifteen_count(s.take(2), 15) + fifteen_count(s.take(2), 15 - v2));
    assert(fifteen_count(s.take(3), 15 - v3) == fifteen_count(s.take(2), 15 - v3) + fifteen_count(s.take(2), 15 - v3 - v2));
    assert(fifteen_count(s.take(3), 15 - v4) == fifteen_count(s.take(2), 15 - v4) + fifteen_count(s.take(2), 15 - v4 - v2));
    assert(fifteen_count(s.take(3), 15 - v4 - v3) == fifteen_count(s.take(2), 15 - v4 - v3) + fifteen_count(s.take(2), 15 - v4 - v3 - v2));
}

#[verifier::rlimit(100)]
proof fn lemma_ground4(s: Seq<Card>)
    requires
        s.len() == 5,
    ensures
        (fifteen_count(s.take(4), 15) == ind(15, 0) + ind(15, value_of(s[0].number)) + ind(15, value_of(s[1].number)) + ind(15, value_of(s[2].number)) + ind(15, value_of(s[3].number)) + ind(15, value_of(s[0].number) + value_of(s[1].number)) + ind(15, value_of(s[0].number) + value_of(s[2].number)) + ind(15, value_of(s[0].number) + value_of(s[3].number)) + ind(15, value_of(s[1].number) + value_of(s[2].number)) + ind(15, value_of(s[1].number) + value_of(s[3].number)) + ind(15, value_of(s[2].number) + value_of(s[3].number)) + ind(15, value_of(s[0].number) + value_of(s[1].number) + value_of(s[2].number)) + ind(15, value_of(s[0].number) + value_of(s[1].number) + value_of(s[3].number)) + ind(15, value_of(s[0].number) + value_of(s[2].number) + value_of(s[3].number)) + ind(15, value_of(s[1].number) + value_of(s[2].number) + value_of(s[3].number)) + ind(15, value_of(s[0].number) + value_of(s[1].number) + value_of(s[2].number) + value_of(s[3].number))),
        (fifteen_count(s.take(4), 15 - value_of(s[4].number)) == ind(15, value_of(s[4].number)) + ind(15, value_of(s[0].number) + value_of(s[4].number)) + ind(15, value_of(s[1].number) + value_of(s[4].number)) + ind(15, value_of(s[2].number) + value_of(s[4].number)) + ind(15, value_of(s[3].number) + value_of(s[4].number)) + ind(15, value_of(s[0].number) + value_of(s[1].number) + value_of(s[4].number)) + ind(15, value_of(s[0].number) + value_of(s[2].number) + value_of(s[4].number)) + ind(15, value_of(s[0].number) + value_of(s[3].number) + value_of(s[4].number)) + ind(15, value_of(s[1].number) + value_of(s[2].number) + value_of(s[4].number)) + ind(15, value_of(s[1].number) + value_of(s[3].number) + value_of(s[4].number)) + ind(15, value_of(s[2].number) + value_of(s[3].number) + value_of(s[4].number)) + ind(15, value_of(s[0].number) + value_of(s[1].number) + value_of(s[2].number) + value_of(s[4].number)) + ind(15, value_of(s[0].number) + value_of(s[1].number) + value_of(s[3].number) + value_of(s[4].number)) + ind(15, value_of(s[0].number) + value_of(s[2].number) + value_of(s[3].number) + value_of(s[4].number)) + ind(15, value_of(s[1].number) + value_of(s[2].number) + value_of(s[3].number) + value_of(s[4].number)) + ind(15, value_of(s[0].number) + value_of(s[1].number) + value_of(s[2].number) + value_of(s[3].number) + value_of(s[4].number))),
{
    let v0 = value_of(s[0].number);
    let v1 = value_of(s[1].number);
    let v2 = value_of(s[2].number);
    let v3 = value_of(s[3].number);
    let v4 = value_of(s[4].number);
    lemma_ground3(s);
    assert(s.take(4).drop_last() =~= s.take(3));
    assert(s.take(4).last() == s[3]);
    assert(fifteen_count(s.take(4), 15) == fifteen_count(s.take(3), 15) + fifteen_count(s.take(3), 15 - v3));
    assert(fifteen_count(s.take(4), 15 - v4) == fifteen_count(s.take(3), 15 - v4) + fifteen_count(s.take(3), 15 - v4 - v3));
}

#[verifier::rlimit(100)]
proof fn lemma_ground5(s: Seq<Card>)
    requires
        s.len() == 5,
    ensures
        (fifteen_count(s.take(5), 15) == ind(15, 0) + ind(15, value_of(s[0].number)) + ind(15, value_of(s[1].number)) + ind(15, value_of(s[2].number)) + ind(15, value_of(s[3].number)) + ind(15, value_of(s[4].number)) + ind(15, value_of(s[0].number) + value_of(s[1].number)) + ind(15, value_of(s[0].number) + value_of(s[2].number)) + ind(15, value_of(s[0].number) + value_of(s[3].number)) + ind(15, value_of(s[0].number) + value_of(s[4].number)) + ind(15, value_of(s[1].number) + value_of(s[2].number)) + ind(15, value_of(s[1].number) + value_of(s[3].number)) + ind(15, value_of(s[1].number) + value_of(s[4].number)) + ind(15, value_of(s[2].number) + value_of(s[3].number)) + ind(15, value_of(s[2].number) + value_of(s[4].number)) + ind(15, value_of(s[3].number) + value_of(s[4].number)) + ind(15, value_of(s[0].number) + value_of(s[1].number) + value_of(s[2].number)) + ind(15, value_of(s[0].number) + value_of(s[1].number) + value_of(s[3].number)) + ind(15, value_of(s[0].number) + value_of(s[1].number) + value_of(s[4].number)) + ind(15, value_of(s[0].number) + value_of(s[2].number) + value_of(s[3].number)) + ind(15, value_of(s[0].number) + value_of(s[2].number) + value_of(s[4].number)) + ind(15, value_of(s[0].number) + value_of(s[3].number) + value_of(s[4].number)) + ind(15, value_of(s[1].number) + value_of(s[2].number) + value_of(s[3].number)) + ind(15, value_of(s[1].number) + value_of(s[2].number) + value_of(s[4].number)) + ind(15, value_of(s[1].number) + value_of(s[3].number) + value_of(s[4].number)) + ind(15, value_of(s[2].number) + value_of(s[3].number) + value_of(s[4].number)) + ind(15, value_of(s[0].number) + value_of(s[1].number) + value_of(s[2].number) + value_of(s[3].number)) + ind(15, value_of(s[0].number) + value_of(s[1].number) + value_of(s[2].number) + value_of(s[4].number)) + ind(15, value_of(s[0].number) + value_of(s[1].number) + value_of(s[3].number) + value_of(s[4].number)) + ind(15, value_of(s[0].number) + value_of(s[2].number) + value_of(s[3].number) + value_of(s[4].number)) + ind(15, value_of(s[1].number) + value_of(s[2].number) + value_of(s[3].number) + value_of(s[4].number)) + ind(15, value_of(s[0].number) + value_of(s[1].number) + value_of(s[2].number) + value_of(s[3].number) + value_of(s[4].number))),
{
    let v0 = value_of(s[0].number);
    let v1 = value_of(s[1].number);
    let v2 = value_of(s[2].number);
    let v3 = value_of(s[3].number);
    let v4 = value_of(s[4].number);
    lemma_ground4(s);
    assert(s.take(5).drop_last() =~= s.take(4));
    assert(s.take(5).last() == s[4]);
    assert(fifteen_count(s.take(5), 15) == fifteen_count(s.take(4), 15) + fifteen_count(s.take(4), 15 - v4));
}

/// Over five cards the subset count for fifteen is exactly the written-out
/// form over subsets of two or more cards: the empty subset misses fifteen,
/// and a single face value is at most ten.
#[verifier::rlimit(100)]
proof fn lemma_f15_closed(s: Seq<Card>)
    requires
        s.len() == 5,
    ensures
        fifteen_count(s, 15) == fifteen_form(
            value_of(s[0].number),
            value_of(s[1].number),
            value_of(s[2].number),
            value_of(s[3].number),
            value_of(s[4].number),
        ),
{
    reveal(fifteen_form);
    let v0 = value_of(s[0].number);
    let v1 = value_of(s[1].number);
    let v2 = value_of(s[2].number);
    let v3 = value_of(s[3].number);
    let v4 = value_of(s[4].number);
    assert(1 <= v0 <= 10 && 1 <= v1 <= 10 && 1 <= v2 <= 10 && 1 <= v3 <= 10 && 1 <= v4 <= 10);
    lemma_ground5(s);
    assert(s.take(5) =~= s);
}

/// One when the two values are an equal pair below ten, zero otherwise.
spec fn pair10(a: int, b: int) -> int {
    if a == b && a != 10 {
        1
    } else {
        0
    }
}

/// At most eight subsets of five legal face values sum to fifteen. The one
/// shape reaching eight is four fives with a ten-valued card.
#[verifier::rlimit(100)]
proof fn lemma_form_le_8(v0: int, v1: int, v2: int, v3: int, v4: int)
    requires
        1 <= v0 <= 10,
        1 <= v1 <= 10,
        1 <= v2 <= 10,
        1 <= v3 <= 10,
        1 <= v4 <= 10,
        !(v0 == v1 && v1 == v2 && v2 == v3 && v3 == v4 && v0 != 10),
    ensures
        fifteen_form(v0, v1, v2, v3, v4) <= 8,
{
    reveal(fifteen_form);
}

/// When the five face values lie within a window of three consecutive
/// values, at most six subsets sum to fifteen.
#[verifier::rlimit(100)]
proof fn lemma_form_window_le_6(v0: int, v1: int, v2: int, v3: int, v4: int, a: int)
    requires
        a <= v0 <= a + 2,
        a <= v1 <= a + 2,
        a <= v2 <= a + 2,
        a <= v3 <= a + 2,
        a <= v4 <= a + 2,
        1 <= v0 <= 10,
        1 <= v1 <= 10,
        1 <= v2 <= 10,
        1 <= v3 <= 10,
        1 <= v4 <= 10,
        !(v0 == v1 && v1 == v2 && v2 == v3 && v3 == v4 && v0 != 10),
    ensures
        fifteen_form(v0, v1, v2, v3, v4) <= 6,
{
    reveal(fifteen_form);
}

/// When at most one pair of the five face values is an equal pair below
/// ten, at most six subsets sum to fifteen.
#[verifier::rlimit(100)]
proof fn lemma_form_one_low_pair_le_6(v0: int, v1: int, v2: int, v3: int, v4: int)
    requires
        1 <= v0 <= 10,
        1 <= v1 <= 10,
        1 <= v2 <= 10,
        1 <= v3 <= 10,
        1 <= v4 <= 10,
        pair10(v0, v1) + pair10(v0, v2) + pair10(v0, v3) + pair10(v0, v4) + pair10(v1, v2)
            + pair10(v1, v3) + pair10(v1, v4) + pair10(v2, v3) + pair10(v2, v4) + pair10(
            v3,
            v4,
        ) <= 1,
    ensures
        fifteen_form(v0, v1, v2, v3, v4) <= 6,
{
    reveal(fifteen_form);
}

/// One when the two numbers are equal, zero otherwise.
spec fn npair(a: Number, b: Number) -> int {
    if a == b {
        1
    } else {
        0
    }
}

/// The pair count over five numbers, written out pair by pair.
spec fn pair_form(n0: Number, n1: Number, n2: Number, n3: Number, n4: Number) -> int {
    npair(n0, n1) + npair(n0, n2) + npair(n0, n3) + npair(n0, n4) + npair(n1, n2) + npair(n1, n3) + npair(n1, n4) + npair(n2, n3) + npair(n2, n4) + npair(n3, n4)
}

/// Over five cards the pair count is exactly the written-out form.
#[verifier::rlimit(100)]
proof fn lemma_pc_closed(s: Seq<Card>)
    requires
        s.len() == 5,
    ensures
        pair_count(s) == pair_form(s[0].number, s[1].number, s[2].number, s[3].number, s[4].number),
{
    assert(s.take(5) =~= s);
    assert(s.take(5).drop_last() =~= s.take(4));
    assert(s.take(5).last() == s[4]);
    assert(s.take(4).drop_last() =~= s.take(3));
    assert(s.take(4).last() == s[3]);
    assert(s.take(3).drop_last() =~= s.take(2));
    assert(s.take(3).last() == s[2]);
    assert(s.take(2).drop_last() =~= s.take(1));
    assert(s.take(2).last() == s[1]);
    assert(s.take(1).drop_last() =~= s.take(0));
    assert(s.take(1).last() == s[0]);
    assert(s.take(0).len() == 0);
    assert(pair_count(s.take(5)) == pair_count(s.take(4)) + matches_in(s.take(4), s[4].number));
    assert(pair_count(s.take(4)) == pair_count(s.take(3)) + matches_in(s.take(3), s[3].number));
    assert(pair_count(s.take(3)) == pair_count(s.take(2)) + matches_in(s.take(2), s[2].number));
    assert(pair_count(s.take(2)) == pair_count(s.take(1)) + matches_in(s.take(1), s[1].number));
    assert(pair_count(s.take(1)) == pair_count(s.take(0)) + matches_in(s.take(0), s[0].number));
    assert(pair_count(s.take(0)) == 0);
    assert(matches_in(s.take(4), s[4].number) == matches_in(s.take(3), s[4].number) + (if s[3].number == s[4].number { 1int } else { 0int }));
    assert(matches_in(s.take(3), s[4].number) == matches_in(s.take(2), s[4].number) + (if s[2].number == s[4].number { 1int } else { 0int }));
    assert(matches_in(s.take(2), s[4].number) == matches_in(s.take(1), s[4].number) + (if s[1].number == s[4].number { 1int } else { 0int }));
    assert(matches_in(s.take(1), s[4].number) == matches_in(s.take(0), s[4].number) + (if s[0].number == s[4].number { 1int } else { 0int }));
    assert(matches_in(s.take(0), s[4].number) == 0);
    assert(matches_in(s.take(3), s[3].number) == matches_in(s.take(2), s[3].number) + (if s[2].number == s[3].number { 1int } else { 0int }));
    assert(matches_in(s.take(2), s[3].number) == matches_in(s.take(1), s[3].number) + (if s[1].number == s[3].number { 1int } else { 0int }));
    assert(matches_in(s.take(1), s[3].number) == matches_in(s.take(0), s[3].number) + (if s[0].number == s[3].number { 1int } else { 0int }));
    assert(matches_in(s.take(0), s[3].number) == 0);
    assert(matches_in(s.take(2), s[2].number) == matches_in(s.take(1), s[2].number) + (if s[1].number == s[2].number { 1int } else { 0int }));
    assert(matches_in(s.take(1), s[2].number) == matches_in(s.take(0), s[2].number) + (if s[0].number == s[2].number { 1int } else { 0int }));
    assert(matches_in(s.take(0), s[2].number) == 0);
    assert(matches_in(s.take(1), s[1].number) == matches_in(s.take(0), s[1].number) + (if s[0].number == s[1].number { 1int } else { 0int }));
    assert(matches_in(s.take(0), s[1].number) == 0);
    assert(matches_in(s.take(0), s[0].number) == 0);
}

/// How many of five numbers have a given rank index.
spec fn rank_form(n0: Number, n1: Number, n2: Number, n3: Number, n4: Number, q: int) -> int {
    (if rank_of(n0) == q { 1int } else { 0int }) + (if rank_of(n1) == q { 1int } else { 0int }) + (if rank_of(n2) == q { 1int } else { 0int }) + (if rank_of(n3) == q { 1int } else { 0int }) + (if rank_of(n4) == q { 1int } else { 0int })
}

/// Over five cards every rank's count is exactly the written-out form.
#[verifier::rlimit(100)]
proof fn lemma_rc_closed(s: Seq<Card>)
    requires
        s.len() == 5,
    ensures
        forall|q: int| #[trigger]
            rank_count(s, q) == rank_form(s[0].number, s[1].number, s[2].number, s[3].number, s[4].number, q),
{
    assert(s.take(5) =~= s);
    assert forall|q: int| #[trigger] rank_count(s, q) == rank_form(s[0].number, s[1].number, s[2].number, s[3].number, s[4].number, q) by {
        assert(s.take(5).drop_last() =~= s.take(4));
        assert(s.take(4).drop_last() =~= s.take(3));
        assert(s.take(3).drop_last() =~= s.take(2));
        assert(s.take(2).drop_last() =~= s.take(1));
        assert(s.take(1).drop_last() =~= s.take(0));
        assert(s.take(5).last() == s[4]);
        assert(s.take(4).last() == s[3]);
        assert(s.take(3).last() == s[2]);
        assert(s.take(2).last() == s[1]);
        assert(s.take(1).last() == s[0]);
        assert(s.take(0).len() == 0);
        assert(rank_count(s.take(5), q) == rank_count(s.take(4), q) + (if rank_of(s[4].number) == q { 1int } else { 0int }));
        assert(rank_count(s.take(4), q) == rank_count(s.take(3), q) + (if rank_of(s[3].number) == q { 1int } else { 0int }));
        assert(rank_count(s.take(3), q) == rank_count(s.take(2), q) + (if rank_of(s[2].number) == q { 1int } else { 0int }));
        assert(rank_count(s.take(2), q) == rank_count(s.take(1), q) + (if rank_of(s[1].number) == q { 1int } else { 0int }));
        assert(rank_count(s.take(1), q) == rank_count(s.take(0), q) + (if rank_of(s[0].number) == q { 1int } else { 0int }));
        assert(rank_count(s.take(0), q) == 0);
    }
}

/// Five pairwise distinct cards cannot all carry one number: there are only
/// four suits.
proof fn lemma_not_all_same_number(s: Seq<Card>)
    requires
        s.len() == 5,
        forall|i: int, j: int| 0 <= i < j < 5 ==> s[i] != s[j],
    ensures
        !(s[0].number == s[1].number && s[1].number == s[2].number && s[2].number == s[3].number
            && s[3].number == s[4].number),
{
    if s[0].number == s[1].number && s[1].number == s[2].number && s[2].number == s[3].number
        && s[3].number == s[4].number {
        assert(forall|i: int, j: int|
            0 <= i < j < 5 ==> s[i].suit != s[j].suit || s[i].number != s[j].number);
        assert(crate::cards::suit_order(s[0].suit) != crate::cards::suit_order(s[1].suit)
            || s[0].suit == s[1].suit);
        assert(false) by {
            let o0 = crate::cards::suit_order(s[0].suit);
            let o1 = crate::cards::suit_order(s[1].suit);
            let o2 = crate::cards::suit_order(s[2].suit);
            let o3 = crate::cards::suit_order(s[3].suit);
            let o4 = crate::cards::suit_order(s[4].suit);
            assert(0 <= o0 <= 3 && 0 <= o1 <= 3 && 0 <= o2 <= 3 && 0 <= o3 <= 3 && 0 <= o4 <= 3);
            assert(o0 != o1 && o0 != o2 && o0 != o3 && o0 != o4 && o1 != o2 && o1 != o3 && o1
                != o4 && o2 != o3 && o2 != o4 && o3 != o4);
        }
    }
}

/// The face value is the rank index plus one, capped at ten.
proof fn lemma_value_from_rank(n: Number)
    ensures
        value_of(n) == if rank_of(n) + 1 <= 10 {
            rank_of(n) + 1
        } else {
            10int
        },
        0 <= rank_of(n) <= 12,
{
}

/// At most six pairs can agree among five numbers that do not all agree.
#[verifier::rlimit(100)]
proof fn lemma_pairs_le_6(n0: Number, n1: Number, n2: Number, n3: Number, n4: Number)
    requires
        !(n0 == n1 && n1 == n2 && n2 == n3 && n3 == n4),
    ensures
        0 <= pair_form(n0, n1, n2, n3, n4) <= 6,
{
}

/// Shorthand: the written-out fifteen count of a five-card combination.
spec fn f15_of(s: Seq<Card>) -> int {
    fifteen_form(
        value_of(s[0].number),
        value_of(s[1].number),
        value_of(s[2].number),
        value_of(s[3].number),
        value_of(s[4].number),
    )
}

/// Shorthand: the written-out pair count of a five-card combination.
spec fn pc_of(s: Seq<Card>) -> int {
    pair_form(s[0].number, s[1].number, s[2].number, s[3].number, s[4].number)
}

/// The sum of the five face-value pair indicators below ten.
spec fn low_pairs_of(s: Seq<Card>) -> int {
    pair10(value_of(s[0].number), value_of(s[1].number)) + pair10(
        value_of(s[0].number),
        value_of(s[2].number),
    ) + pair10(value_of(s[0].number), value_of(s[3].number)) + pair10(
        value_of(s[0].number),
        value_of(s[4].number),
    ) + pair10(value_of(s[1].number), value_of(s[2].number)) + pair10(
        value_of(s[1].number),
        value_of(s[3].number),
    ) + pair10(value_of(s[1].number), value_of(s[4].number)) + pair10(
        value_of(s[2].number),
        value_of(s[3].number),
    ) + pair10(value_of(s[2].number), value_of(s[4].number)) + pair10(
        value_of(s[3].number),
        value_of(s[4].number),
    )
}

/// An equal pair of face values below ten is an equal pair of numbers, so
/// the low value pairs never outnumber the number pairs.
#[verifier::rlimit(100)]
proof fn lemma_low_pairs_le_pairs(s: Seq<Card>)
    requires
        s.len() == 5,
    ensures
        0 <= low_pairs_of(s) <= pc_of(s),
{
    assert(pair10(value_of(s[0].number), value_of(s[1].number)) <= npair(
        s[0].number,
        s[1].number,
    )) by {
        if pair10(value_of(s[0].number), value_of(s[1].number)) == 1 {
            lemma_value_from_rank(s[0].number);
            lemma_value_from_rank(s[1].number);
            crate::cards::lemma_rank_of_injective(s[0].number, s[1].number);
        }
    }
    assert(pair10(value_of(s[0].number), value_of(s[2].number)) <= npair(
        s[0].number,
        s[2].number,
    )) by {
        if pair10(value_of(s[0].number), value_of(s[2].number)) == 1 {
            lemma_value_from_rank(s[0].number);
            lemma_value_from_rank(s[2].number);
            crate::cards::lemma_rank_of_injective(s[0].number, s[2].number);
        }
    }
    assert(pair10(value_of(s[0].number), value_of(s[3].number)) <= npair(
        s[0].number,
        s[3].number,
    )) by {
        if pair10(value_of(s[0].number), value_of(s[3].number)) == 1 {
            lemma_value_from_rank(s[0].number);
            lemma_value_from_rank(s[3].number);
            crate::cards::lemma_rank_of_injective(s[0].number, s[3].number);
        }
    }
    assert(pair10(value_of(s[0].number), value_of(s[4].number)) <= npair(
        s[0].number,
        s[4].number,
    )) by {
        if pair10(value_of(s[0].number), value_of(s[4].number)) == 1 {
            lemma_value_from_rank(s[0].number);
            lemma_value_from_rank(s[4].number);
            crate::cards::lemma_rank_of_injective(s[0].number, s[4].number);
        }
    }
    assert(pair10(value_of(s[1].number), value_of(s[2].number)) <= npair(
        s[1].number,
        s[2].number,
    )) by {
        if pair10(value_of(s[1].number), value_of(s[2].number)) == 1 {
            lemma_value_from_rank(s[1].number);
            lemma_value_from_rank(s[2].number);
            crate::cards::lemma_rank_of_injective(s[1].number, s[2].number);
        }
    }
    assert(pair10(value_of(s[1].number), value_of(s[3].number)) <= npair(
        s[1].number,
        s[3].number,
    )) by {
        if pair10(value_of(s[1].number), value_of(s[3].number)) == 1 {
            lemma_value_from_rank(s[1].number);
            lemma_value_from_rank(s[3].number);
            crate::cards::lemma_rank_of_injective(s[1].number, s[3].number);
        }
    }
    assert(pair10(value_of(s[1].number), value_of(s[4].number)) <= npair(
        s[1].number,
        s[4].number,
    )) by {
        if pair10(value_of(s[1].number), value_of(s[4].number)) == 1 {
            lemma_value_from_rank(s[1].number);
            lemma_value_from_rank(s[4].number);
            crate::cards::lemma_rank_of_injective(s[1].number, s[4].number);
        }
    }
    assert(pair10(value_of(s[2].number), value_of(s[3].number)) <= npair(
        s[2].number,
        s[3].number,
    )) by {
        if pair10(value_of(s[2].number), value_of(s[3].number)) == 1 {
            lemma_value_from_rank(s[2].number);
            lemma_value_from_rank(s[3].number);
            crate::cards::lemma_rank_of_injective(s[2].number, s[3].number);
        }
    }
    assert(pair10(value_of(s[2].number), value_of(s[4].number)) <= npair(
        s[2].number,
        s[4].number,
    )) by {
        if pair10(value_of(s[2].number), value_of(s[4].number)) == 1 {
            lemma_value_from_rank(s[2].number);
            lemma_value_from_rank(s[4].number);
            crate::cards::lemma_rank_of_injective(s[2].number, s[4].number);
        }
    }
    assert(pair10(value_of(s[3].number), value_of(s[4].number)) <= npair(
        s[3].number,
        s[4].number,
    )) by {
        if pair10(value_of(s[3].number), value_of(s[4].number)) == 1 {
            lemma_value_from_rank(s[3].number);
            lemma_value_from_rank(s[4].number);
            crate::cards::lemma_rank_of_injective(s[3].number, s[4].number);
        }
    }
}

/// Each card is counted under its own rank.
proof fn lemma_own_rank_counted(s: Seq<Card>, i: int)
    requires
        s.len() == 5,
        0 <= i < 5,
    ensures
        rank_count(s, rank_of(s[i].number)) >= 1,
{
    lemma_rc_closed(s);
    assert(rank_count(s, rank_of(s[i].number)) == rank_form(
        s[0].number,
        s[1].number,
        s[2].number,
        s[3].number,
        s[4].number,
        rank_of(s[i].number),
    ));
}

/// Two cards of one number push that rank's count to two.
proof fn lemma_pair_bumps_count(s: Seq<Card>, i: int, j: int)
    requires
        s.len() == 5,
        0 <= i < j < 5,
        s[i].number == s[j].number,
    ensures
        rank_count(s, rank_of(s[i].number)) >= 2,
{
    lemma_rc_closed(s);
    assert(rank_count(s, rank_of(s[i].number)) == rank_form(
        s[0].number,
        s[1].number,
        s[2].number,
        s[3].number,
        s[4].number,
        rank_of(s[i].number),
    ));
}

/// When a rank window holds as many cards as exist, every card's rank lies
/// inside the window.
proof fn lemma_all_in_window(s: Seq<Card>, b: int, w: int, i: int)
    requires
        s.len() == 5,
        0 <= b,
        0 <= w,
        b + w <= 13,
        rank_count_sum(s, b, w) == 5,
        0 <= i < 5,
    ensures
        b <= rank_of(s[i].number) < b + w,
{
    let q = rank_of(s[i].number);
    lemma_own_rank_counted(s, i);
    assert(0 <= q <= 12);
    if q < b || q >= b + w {
        crate::score::lemma_rank_count_sum_full(s);
        lemma_rank_count_sum_split(s, 0, b, 13 - b);
        lemma_rank_count_sum_split(s, b, w, 13 - b - w);
        lemma_rank_count_sum_nonneg(s, 0, b);
        lemma_rank_count_sum_nonneg(s, b + w, 13 - b - w);
        if q < b {
            lemma_rank_count_sum_split(s, 0, q, b - q);
            lemma_rank_count_sum_split(s, q, 1, b - q - 1);
            lemma_rank_count_sum_nonneg(s, 0, q);
            lemma_rank_count_sum_nonneg(s, q + 1, b - q - 1);
            assert(rank_count_sum(s, q + 1, 0) == 0);
            assert(rank_count_sum(s, q, 1) == rank_count(s, q));
        } else {
            lemma_rank_count_sum_split(s, b + w, q - b - w, 13 - q);
            lemma_rank_count_sum_split(s, q, 1, 13 - q - 1);
            lemma_rank_count_sum_nonneg(s, b + w, q - b - w);
            lemma_rank_count_sum_nonneg(s, q + 1, 13 - q - 1);
            assert(rank_count_sum(s, q + 1, 0) == 0);
            assert(rank_count_sum(s, q, 1) == rank_count(s, q));
        }
        assert(false);
    }
}

/// Two numbers agree exactly when their rank indices agree.
#[verifier::rlimit(100)]
proof fn lemma_pairs_are_rank_pairs(s: Seq<Card>)
    requires
        s.len() == 5,
    ensures
        forall|i: int, j: int|
            0 <= i < j < 5 ==> (npair(s[i].number, s[j].number) == 1 <==> rank_of(s[i].number)
                == rank_of(s[j].number)),
{
    assert forall|i: int, j: int|
        0 <= i < j < 5 implies (npair(s[i].number, s[j].number) == 1 <==> rank_of(s[i].number)
        == rank_of(s[j].number)) by {
        if rank_of(s[i].number) == rank_of(s[j].number) {
            crate::cards::lemma_rank_of_injective(s[i].number, s[j].number);
        }
    }
}

/// A run over five ranks: every rank single, no pairs, run worth five.
#[verifier::rlimit(100)]
proof fn lemma_block5(s: Seq<Card>, b: int)
    requires
        s.len() == 5,
        0 <= b,
        b + 5 <= 13,
        forall|i: int| b <= i < b + 5 ==> rank_count(s, i) >= 1,
        rank_count_sum(s, b, 5) <= 5,
    ensures
        2 * f15_of(s) + 2 * pc_of(s) + 5 * run_product(s, b, 5) <= 22,
        0 <= 5 * run_product(s, b, 5) <= 12,
        pc_of(s) >= 0,
{
    lemma_rc_closed(s);
    lemma_pairs_are_rank_pairs(s);
    lemma_low_pairs_le_pairs(s);
    lemma_value_from_rank(s[0].number);
    lemma_value_from_rank(s[1].number);
    lemma_value_from_rank(s[2].number);
    lemma_value_from_rank(s[3].number);
    lemma_value_from_rank(s[4].number);
    let r0 = rank_of(s[0].number);
    let r1 = rank_of(s[1].number);
    let r2 = rank_of(s[2].number);
    let r3 = rank_of(s[3].number);
    let r4 = rank_of(s[4].number);
    let v0 = value_of(s[0].number);
    let v1 = value_of(s[1].number);
    let v2 = value_of(s[2].number);
    let v3 = value_of(s[3].number);
    let v4 = value_of(s[4].number);
    assert(rank_count_sum(s, b + 5, 0) == 0);
    assert(rank_count_sum(s, b + 4, 1) == rank_count(s, b + 4) + rank_count_sum(s, b + 5, 0));
    assert(rank_count_sum(s, b + 3, 2) == rank_count(s, b + 3) + rank_count_sum(s, b + 4, 1));
    assert(rank_count_sum(s, b + 2, 3) == rank_count(s, b + 2) + rank_count_sum(s, b + 3, 2));
    assert(rank_count_sum(s, b + 1, 4) == rank_count(s, b + 1) + rank_count_sum(s, b + 2, 3));
    assert(rank_count_sum(s, b + 0, 5) == rank_count(s, b + 0) + rank_count_sum(s, b + 1, 4));
    assert(run_product(s, b + 5, 0) == 1);
    assert(run_product(s, b + 4, 1) == rank_count(s, b + 4) * run_product(s, b + 5, 0));
    assert(run_product(s, b + 3, 2) == rank_count(s, b + 3) * run_product(s, b + 4, 1));
    assert(run_product(s, b + 2, 3) == rank_count(s, b + 2) * run_product(s, b + 3, 2));
    assert(run_product(s, b + 1, 4) == rank_count(s, b + 1) * run_product(s, b + 2, 3));
    assert(run_product(s, b + 0, 5) == rank_count(s, b + 0) * run_product(s, b + 1, 4));
    assert(rank_count(s, b + 0) == rank_form(s[0].number, s[1].number, s[2].number, s[3].number, s[4].number, b + 0));
    assert(rank_count(s, b + 1) == rank_form(s[0].number, s[1].number, s[2].number, s[3].number, s[4].number, b + 1));
    assert(rank_count(s, b + 2) == rank_form(s[0].number, s[1].number, s[2].number, s[3].number, s[4].number, b + 2));
    assert(rank_count(s, b + 3) == rank_form(s[0].number, s[1].number, s[2].number, s[3].number, s[4].number, b + 3));
    assert(rank_count(s, b + 4) == rank_form(s[0].number, s[1].number, s[2].number, s[3].number, s[4].number, b + 4));
    assert(rank_count_sum(s, b, 5) == 5);
    lemma_all_in_window(s, b, 5, 0);
    lemma_all_in_window(s, b, 5, 1);
    lemma_all_in_window(s, b, 5, 2);
    lemma_all_in_window(s, b, 5, 3);
    lemma_all_in_window(s, b, 5, 4);
    assert(pc_of(s) == 0);
    lemma_form_one_low_pair_le_6(v0, v1, v2, v3, v4);
}

/// A run over four ranks: at most one duplicated rank, at most one pair,
/// and at most six fifteens.
#[verifier::rlimit(100)]
proof fn lemma_block4(s: Seq<Card>, b: int)
    requires
        s.len() == 5,
        0 <= b,
        b + 4 <= 13,
        forall|i: int| b <= i < b + 4 ==> rank_count(s, i) >= 1,
        rank_count_sum(s, b, 4) <= 5,
    ensures
        2 * f15_of(s) + 2 * pc_of(s) + 4 * run_product(s, b, 4) <= 22,
        0 <= 4 * run_product(s, b, 4) <= 12,
        pc_of(s) >= 0,
{
    lemma_low_pairs_le_pairs(s);
    lemma_value_from_rank(s[0].number);
    lemma_value_from_rank(s[1].number);
    lemma_value_from_rank(s[2].number);
    lemma_value_from_rank(s[3].number);
    lemma_value_from_rank(s[4].number);
    let v0 = value_of(s[0].number);
    let v1 = value_of(s[1].number);
    let v2 = value_of(s[2].number);
    let v3 = value_of(s[3].number);
    let v4 = value_of(s[4].number);
    assert(rank_count_sum(s, b + 4, 0) == 0);
    assert(rank_count_sum(s, b + 3, 1) == rank_count(s, b + 3) + rank_count_sum(s, b + 4, 0));
    assert(rank_count_sum(s, b + 2, 2) == rank_count(s, b + 2) + rank_count_sum(s, b + 3, 1));
    assert(rank_count_sum(s, b + 1, 3) == rank_count(s, b + 1) + rank_count_sum(s, b + 2, 2));
    assert(rank_count_sum(s, b, 4) == rank_count(s, b) + rank_count_sum(s, b + 1, 3));
    assert(run_product(s, b + 4, 0) == 1);
    assert(run_product(s, b + 3, 1) == rank_count(s, b + 3) * run_product(s, b + 4, 0));
    assert(run_product(s, b + 2, 2) == rank_count(s, b + 2) * run_product(s, b + 3, 1));
    assert(run_product(s, b + 1, 3) == rank_count(s, b + 1) * run_product(s, b + 2, 2));
    assert(run_product(s, b, 4) == rank_count(s, b) * run_product(s, b + 1, 3));
    let c0 = rank_count(s, b);
    let c1 = rank_count(s, b + 1);
    let c2 = rank_count(s, b + 2);
    let c3 = rank_count(s, b + 3);
    assert(1 <= c0 <= 2 && 1 <= c1 <= 2 && 1 <= c2 <= 2 && 1 <= c3 <= 2);
    lemma_prod4(c0, c1, c2, c3);
    assert(run_product(s, b, 4) == c0 * (c1 * (c2 * (c3 * 1))));
    lemma_pairs_split4(s, b);
    lemma_slot_pairs_count(s, b);
    lemma_slot_pairs_count(s, b + 1);
    lemma_slot_pairs_count(s, b + 2);
    lemma_slot_pairs_count(s, b + 3);
    lemma_sq_small(c0);
    lemma_sq_small(c1);
    lemma_sq_small(c2);
    lemma_sq_small(c3);
    assert((if rank_of(s[0].number) == rank_of(s[1].number) && !(b <= rank_of(s[0].number)
        < b + 4) {
        1int
    } else {
        0int
    }) == 0) by {
        if rank_of(s[0].number) == rank_of(s[1].number) && !(b <= rank_of(s[0].number) < b
            + 4) {
            crate::cards::lemma_rank_of_injective(s[0].number, s[1].number);
            lemma_pair_bumps_count(s, 0, 1);
            lemma_value_from_rank(s[0].number);
            lemma_outside_count(s, b, 4, rank_of(s[0].number));
        }
    }
    assert((if rank_of(s[0].number) == rank_of(s[2].number) && !(b <= rank_of(s[0].number)
        < b + 4) {
        1int
    } else {
        0int
    }) == 0) by {
        if rank_of(s[0].number) == rank_of(s[2].number) && !(b <= rank_of(s[0].number) < b
            + 4) {
            crate::cards::lemma_rank_of_injective(s[0].number, s[2].number);
            lemma_pair_bumps_count(s, 0, 2);
            lemma_value_from_rank(s[0].number);
            lemma_outside_count(s, b, 4, rank_of(s[0].number));
        }
    }
    assert((if rank_of(s[0].number) == rank_of(s[3].number) && !(b <= rank_of(s[0].number)
        < b + 4) {
        1int
    } else {
        0int
    }) == 0) by {
        if rank_of(s[0].number) == rank_of(s[3].number) && !(b <= rank_of(s[0].number) < b
            + 4) {
            crate::cards::lemma_rank_of_injective(s[0].number, s[3].number);
            lemma_pair_bumps_count(s, 0, 3);
            lemma_value_from_rank(s[0].number);
            lemma_outside_count(s, b, 4, rank_of(s[0].number));
        }
    }
    assert((if rank_of(s[0].number) == rank_of(s[4].number) && !(b <= rank_of(s[0].number)
        < b + 4) {
        1int
    } else {
        0int
    }) == 0) by {
        if rank_of(s[0].number) == rank_of(s[4].number) && !(b <= rank_of(s[0].number) < b
            + 4) {
            crate::cards::lemma_rank_of_injective(s[0].number, s[4].number);
            lemma_pair_bumps_count(s, 0, 4);
            lemma_value_from_rank(s[0].number);
            lemma_outside_count(s, b, 4, rank_of(s[0].number));
        }
    }
    assert((if rank_of(s[1].number) == rank_of(s[2].number) && !(b <= rank_of(s[1].number)
        < b + 4) {
        1int
    } else {
        0int
    }) == 0) by {
        if rank_of(s[1].number) == rank_of(s[2].number) && !(b <= rank_of(s[1].number) < b
            + 4) {
            crate::cards::lemma_rank_of_injective(s[1].number, s[2].number);
            lemma_pair_bumps_count(s, 1, 2);
            lemma_value_from_rank(s[1].number);
            lemma_outside_count(s, b, 4, rank_of(s[1].number));
        }
    }
    assert((if rank_of(s[1].number) == rank_of(s[3].number) && !(b <= rank_of(s[1].number)
        < b + 4) {
        1int
    } else {
        0int
    }) == 0) by {
        if rank_of(s[1].number) == rank_of(s[3].number) && !(b <= rank_of(s[1].number) < b
            + 4) {
            crate::cards::lemma_rank_of_injective(s[1].number, s[3].number);
            lemma_pair_bumps_count(s, 1, 3);
            lemma_value_from_rank(s[1].number);
            lemma_outside_count(s, b, 4, rank_of(s[1].number));
        }
    }
    assert((if rank_of(s[1].number) == rank_of(s[4].number) && !(b <= rank_of(s[1].number)
        < b + 4) {
        1int
    } else {
        0int
    }) == 0) by {
        if rank_of(s[1].number) == rank_of(s[4].number) && !(b <= rank_of(s[1].number) < b
            + 4) {
            crate::cards::lemma_rank_of_injective(s[1].number, s[4].number);
            lemma_pair_bumps_count(s, 1, 4);
            lemma_value_from_rank(s[1].number);
            lemma_outside_count(s, b, 4, rank_of(s[1].number));
        }
    }
    assert((if rank_of(s[2].number) == rank_of(s[3].number) && !(b <= rank_of(s[2].number)
        < b + 4) {
        1int
    } else {
        0int
    }) == 0) by {
        if rank_of(s[2].number) == rank_of(s[3].number) && !(b <= rank_of(s[2].number) < b
            + 4) {
            crate::cards::lemma_rank_of_injective(s[2].number, s[3].number);
            lemma_pair_bumps_count(s, 2, 3);
            lemma_value_from_rank(s[2].number);
            lemma_outside_count(s, b, 4, rank_of(s[2].number));
        }
    }
    assert((if rank_of(s[2].number) == rank_of(s[4].number) && !(b <= rank_of(s[2].number)
        < b + 4) {
        1int
    } else {
        0int
    }) == 0) by {
        if rank_of(s[2].number) == rank_of(s[4].number) && !(b <= rank_of(s[2].number) < b
            + 4) {
            crate::cards::lemma_rank_of_injective(s[2].number, s[4].number);
            lemma_pair_bumps_count(s, 2, 4);
            lemma_value_from_rank(s[2].number);
            lemma_outside_count(s, b, 4, rank_of(s[2].number));
        }
    }
    assert((if rank_of(s[3].number) == rank_of(s[4].number) && !(b <= rank_of(s[3].number)
        < b + 4) {
        1int
    } else {
        0int
    }) == 0) by {
        if rank_of(s[3].number) == rank_of(s[4].number) && !(b <= rank_of(s[3].number) < b
            + 4) {
            crate::cards::lemma_rank_of_injective(s[3].number, s[4].number);
            lemma_pair_bumps_count(s, 3, 4);
            lemma_value_from_rank(s[3].number);
            lemma_outside_count(s, b, 4, rank_of(s[3].number));
        }
    }
    assert(out_pairs(s, b, 4) == 0);
    assert(slot_pairs(s, b) + slot_pairs(s, b + 1) + slot_pairs(s, b + 2) + slot_pairs(s, b + 3)
        <= 1);
    assert(pc_of(s) <= 1);
    lemma_form_one_low_pair_le_6(v0, v1, v2, v3, v4);
}

/// Every pair is a pair at some window rank or a pair outside the window,
/// for a window of four ranks.
#[verifier::rlimit(100)]
proof fn lemma_pairs_split4(s: Seq<Card>, b: int)
    requires
        s.len() == 5,
    ensures
        pc_of(s) == slot_pairs(s, b) + slot_pairs(s, b + 1) + slot_pairs(s, b + 2) + slot_pairs(
            s,
            b + 3,
        ) + out_pairs(s, b, 4),
{
    lemma_pairs_are_rank_pairs(s);
}

/// A rank outside a window and the window itself cannot together hold more
/// cards than exist.
proof fn lemma_outside_count(s: Seq<Card>, b: int, w: int, q: int)
    requires
        s.len() == 5,
        0 <= b,
        0 <= w,
        b + w <= 13,
        0 <= q < 13,
        !(b <= q < b + w),
    ensures
        rank_count(s, q) + rank_count_sum(s, b, w) <= 5,
{
    crate::score::lemma_rank_count_sum_full(s);
    assert(rank_count_sum(s, q, 1) == rank_count(s, q) + rank_count_sum(s, q + 1, 0));
    assert(rank_count_sum(s, q + 1, 0) == 0);
    if q < b {
        lemma_rank_count_sum_split(s, 0, q, 13 - q);
        lemma_rank_count_sum_split(s, q, 1, 12 - q);
        lemma_rank_count_sum_split(s, q + 1, b - q - 1, 13 - b);
        lemma_rank_count_sum_split(s, b, w, 13 - b - w);
        lemma_rank_count_sum_nonneg(s, 0, q);
        lemma_rank_count_sum_nonneg(s, q + 1, b - q - 1);
        lemma_rank_count_sum_nonneg(s, b + w, 13 - b - w);
    } else {
        lemma_rank_count_sum_split(s, 0, b, 13 - b);
        lemma_rank_count_sum_split(s, b, w, 13 - b - w);
        lemma_rank_count_sum_split(s, b + w, q - b - w, 13 - q);
        lemma_rank_count_sum_split(s, q, 1, 12 - q);
        lemma_rank_count_sum_nonneg(s, 0, b);
        lemma_rank_count_sum_nonneg(s, b + w, q - b - w);
        lemma_rank_count_sum_nonneg(s, q + 1, 12 - q);
    }
}

/// For five zero-one indicators the pairwise products count the pairs:
/// twice their sum is the square of the total minus the total.
proof fn lemma_indicator_pairs(x0: int, x1: int, x2: int, x3: int, x4: int)
    requires
        0 <= x0 <= 1,
        0 <= x1 <= 1,
        0 <= x2 <= 1,
        0 <= x3 <= 1,
        0 <= x4 <= 1,
    ensures
        2 * (x0 * x1 + x0 * x2 + x0 * x3 + x0 * x4 + x1 * x2 + x1 * x3 + x1 * x4 + x2 * x3 + x2
            * x4 + x3 * x4) == (x0 + x1 + x2 + x3 + x4) * (x0 + x1 + x2 + x3 + x4) - (x0 + x1 + x2
            + x3 + x4),
{
    assert(2 * (x0 * x1 + x0 * x2 + x0 * x3 + x0 * x4 + x1 * x2 + x1 * x3 + x1 * x4 + x2 * x3 + x2
        * x4 + x3 * x4) == (x0 + x1 + x2 + x3 + x4) * (x0 + x1 + x2 + x3 + x4) - (x0 + x1 + x2
        + x3 + x4)) by (nonlinear_arith)
        requires
            0 <= x0 <= 1,
            0 <= x1 <= 1,
            0 <= x2 <= 1,
            0 <= x3 <= 1,
            0 <= x4 <= 1,
    ;
}

/// How many pairs of the five cards both carry rank `q`.
spec fn slot_pairs(s: Seq<Card>, q: int) -> int {
    (if rank_of(s[0].number) == q && rank_of(s[1].number) == q { 1int } else { 0int }) + (if rank_of(s[0].number) == q && rank_of(s[2].number) == q { 1int } else { 0int }) + (if rank_of(s[0].number) == q && rank_of(s[3].number) == q { 1int } else { 0int }) + (if rank_of(s[0].number) == q && rank_of(s[4].number) == q { 1int } else { 0int }) + (if rank_of(s[1].number) == q && rank_of(s[2].number) == q { 1int } else { 0int }) + (if rank_of(s[1].number) == q && rank_of(s[3].number) == q { 1int } else { 0int }) + (if rank_of(s[1].number) == q && rank_of(s[4].number) == q { 1int } else { 0int }) + (if rank_of(s[2].number) == q && rank_of(s[3].number) == q { 1int } else { 0int }) + (if rank_of(s[2].number) == q && rank_of(s[4].number) == q { 1int } else { 0int }) + (if rank_of(s[3].number) == q && rank_of(s[4].number) == q { 1int } else { 0int })
}

/// Twice the pairs at one rank is that rank's count squared minus itself.
#[verifier::rlimit(100)]
proof fn lemma_slot_pairs_count(s: Seq<Card>, q: int)
    requires
        s.len() == 5,
    ensures
        2 * slot_pairs(s, q) == rank_count(s, q) * rank_count(s, q) - rank_count(s, q),
        slot_pairs(s, q) >= 0,
{
    lemma_rc_closed(s);
    assert(rank_count(s, q) == rank_form(
        s[0].number,
        s[1].number,
        s[2].number,
        s[3].number,
        s[4].number,
        q,
    ));
    let x0: int = if rank_of(s[0].number) == q {
        1
    } else {
        0
    };
    let x1: int = if rank_of(s[1].number) == q {
        1
    } else {
        0
    };
    let x2: int = if rank_of(s[2].number) == q {
        1
    } else {
        0
    };
    let x3: int = if rank_of(s[3].number) == q {
        1
    } else {
        0
    };
    let x4: int = if rank_of(s[4].number) == q {
        1
    } else {
        0
    };
    assert((if rank_of(s[0].number) == q && rank_of(s[1].number) == q { 1int } else { 0int }) == x0 * x1);
    assert((if rank_of(s[0].number) == q && rank_of(s[2].number) == q { 1int } else { 0int }) == x0 * x2);
    assert((if rank_of(s[0].number) == q && rank_of(s[3].number) == q { 1int } else { 0int }) == x0 * x3);
    assert((if rank_of(s[0].number) == q && rank_of(s[4].number) == q { 1int } else { 0int }) == x0 * x4);
    assert((if rank_of(s[1].number) == q && rank_of(s[2].number) == q { 1int } else { 0int }) == x1 * x2);
    assert((if rank_of(s[1].number) == q && rank_of(s[3].number) == q { 1int } else { 0int }) == x1 * x3);
    assert((if rank_of(s[1].number) == q && rank_of(s[4].number) == q { 1int } else { 0int }) == x1 * x4);
    assert((if rank_of(s[2].number) == q && rank_of(s[3].number) == q { 1int } else { 0int }) == x2 * x3);
    assert((if rank_of(s[2].number) == q && rank_of(s[4].number) == q { 1int } else { 0int }) == x2 * x4);
    assert((if rank_of(s[3].number) == q && rank_of(s[4].number) == q { 1int } else { 0int }) == x3 * x4);
    lemma_indicator_pairs(x0, x1, x2, x3, x4);
}

/// How many pairs of equal-rank cards lie wholly outside a rank window.
spec fn out_pairs(s: Seq<Card>, b: int, w: int) -> int {
    (if rank_of(s[0].number) == rank_of(s[1].number) && !(b <= rank_of(s[0].number) < b + w) { 1int } else { 0int }) + (if rank_of(s[0].number) == rank_of(s[2].number) && !(b <= rank_of(s[0].number) < b + w) { 1int } else { 0int }) + (if rank_of(s[0].number) == rank_of(s[3].number) && !(b <= rank_of(s[0].number) < b + w) { 1int } else { 0int }) + (if rank_of(s[0].number) == rank_of(s[4].number) && !(b <= rank_of(s[0].number) < b + w) { 1int } else { 0int }) + (if rank_of(s[1].number) == rank_of(s[2].number) && !(b <= rank_of(s[1].number) < b + w) { 1int } else { 0int }) + (if rank_of(s[1].number) == rank_of(s[3].number) && !(b <= rank_of(s[1].number) < b + w) { 1int } else { 0int }) + (if rank_of(s[1].number) == rank_of(s[4].number) && !(b <= rank_of(s[1].number) < b + w) { 1int } else { 0int }) + (if rank_of(s[2].number) == rank_of(s[3].number) && !(b <= rank_of(s[2].number) < b + w) { 1int } else { 0int }) + (if rank_of(s[2].number) == rank_of(s[4].number) && !(b <= rank_of(s[2].number) < b + w) { 1int } else { 0int }) + (if rank_of(s[3].number) == rank_of(s[4].number) && !(b <= rank_of(s[3].number) < b + w) { 1int } else { 0int })
}

/// The pairs outside a window cannot outnumber the pairs the outside cards
/// can form among themselves.
#[verifier::rlimit(100)]
proof fn lemma_out_pairs_bound(s: Seq<Card>, b: int, w: int)
    requires
        s.len() == 5,
        0 <= b,
        0 < w,
        b + w <= 13,
    ensures
        out_pairs(s, b, w) >= 0,
        2 * out_pairs(s, b, w) <= (5 - window_cards(s, b, w)) * (5 - window_cards(s, b, w)) - (5
            - window_cards(s, b, w)),
{
    let y0: int = if !(b <= rank_of(s[0].number) < b + w) {
        1
    } else {
        0
    };
    let y1: int = if !(b <= rank_of(s[1].number) < b + w) {
        1
    } else {
        0
    };
    let y2: int = if !(b <= rank_of(s[2].number) < b + w) {
        1
    } else {
        0
    };
    let y3: int = if !(b <= rank_of(s[3].number) < b + w) {
        1
    } else {
        0
    };
    let y4: int = if !(b <= rank_of(s[4].number) < b + w) {
        1
    } else {
        0
    };
    assert((if rank_of(s[0].number) == rank_of(s[1].number) && !(b <= rank_of(s[0].number) < b + w) { 1int } else { 0int }) <= y0 * y1);
    assert((if rank_of(s[0].number) == rank_of(s[2].number) && !(b <= rank_of(s[0].number) < b + w) { 1int } else { 0int }) <= y0 * y2);
    assert((if rank_of(s[0].number) == rank_of(s[3].number) && !(b <= rank_of(s[0].number) < b + w) { 1int } else { 0int }) <= y0 * y3);
    assert((if rank_of(s[0].number) == rank_of(s[4].number) && !(b <= rank_of(s[0].number) < b + w) { 1int } else { 0int }) <= y0 * y4);
    assert((if rank_of(s[1].number) == rank_of(s[2].number) && !(b <= rank_of(s[1].number) < b + w) { 1int } else { 0int }) <= y1 * y2);
    assert((if rank_of(s[1].number) == rank_of(s[3].number) && !(b <= rank_of(s[1].number) < b + w) { 1int } else { 0int }) <= y1 * y3);
    assert((if rank_of(s[1].number) == rank_of(s[4].number) && !(b <= rank_of(s[1].number) < b + w) { 1int } else { 0int }) <= y1 * y4);
    assert((if rank_of(s[2].number) == rank_of(s[3].number) && !(b <= rank_of(s[2].number) < b + w) { 1int } else { 0int }) <= y2 * y3);
    assert((if rank_of(s[2].number) == rank_of(s[4].number) && !(b <= rank_of(s[2].number) < b + w) { 1int } else { 0int }) <= y2 * y4);
    assert((if rank_of(s[3].number) == rank_of(s[4].number) && !(b <= rank_of(s[3].number) < b + w) { 1int } else { 0int }) <= y3 * y4);
    lemma_indicator_pairs(y0, y1, y2, y3, y4);
}

/// How many of the five cards carry a rank inside the window.
spec fn window_cards(s: Seq<Card>, b: int, w: int) -> int {
    (if b <= rank_of(s[0].number) < b + w { 1int } else { 0int }) + (if b <= rank_of(s[1].number) < b + w { 1int } else { 0int }) + (if b <= rank_of(s[2].number) < b + w { 1int } else { 0int }) + (if b <= rank_of(s[3].number) < b + w { 1int } else { 0int }) + (if b <= rank_of(s[4].number) < b + w { 1int } else { 0int })
}

/// Every pair is a pair at some window rank or a pair outside the window.
#[verifier::rlimit(100)]
proof fn lemma_pairs_split3(s: Seq<Card>, b: int)
    requires
        s.len() == 5,
    ensures
        pc_of(s) == slot_pairs(s, b) + slot_pairs(s, b + 1) + slot_pairs(s, b + 2) + out_pairs(
            s,
            b,
            3,
        ),
{
    lemma_pairs_are_rank_pairs(s);
}

/// The cards a three-rank window holds are its rank counts summed.
#[verifier::rlimit(100)]
proof fn lemma_window_cards3(s: Seq<Card>, b: int)
    requires
        s.len() == 5,
    ensures
        window_cards(s, b, 3) == rank_count_sum(s, b, 3),
{
    lemma_rc_closed(s);
    assert(rank_count_sum(s, b + 3, 0) == 0);
    assert(rank_count_sum(s, b + 2, 1) == rank_count(s, b + 2) + rank_count_sum(s, b + 3, 0));
    assert(rank_count_sum(s, b + 1, 2) == rank_count(s, b + 1) + rank_count_sum(s, b + 2, 1));
    assert(rank_count_sum(s, b + 0, 3) == rank_count(s, b + 0) + rank_count_sum(s, b + 1, 2));
    assert(rank_count(s, b + 0) == rank_form(s[0].number, s[1].number, s[2].number, s[3].number, s[4].number, b + 0));
    assert(rank_count(s, b + 1) == rank_form(s[0].number, s[1].number, s[2].number, s[3].number, s[4].number, b + 1));
    assert(rank_count(s, b + 2) == rank_form(s[0].number, s[1].number, s[2].number, s[3].number, s[4].number, b + 2));
}

/// The square identity for a count between one and three.
proof fn lemma_sq_small(c: int)
    requires
        1 <= c <= 3,
    ensures
        c * c - c == (if c == 1 {
            0int
        } else if c == 2 {
            2int
        } else {
            6int
        }),
{
    assert(c * c - c == (if c == 1 {
        0int
    } else if c == 2 {
        2int
    } else {
        6int
    })) by (nonlinear_arith)
        requires
            1 <= c <= 3,
    ;
}

/// Product of three window counts that hold five cards.
proof fn lemma_prod3_full(c0: int, c1: int, c2: int)
    requires
        1 <= c0 <= 3,
        1 <= c1 <= 3,
        1 <= c2 <= 3,
        c0 + c1 + c2 == 5,
    ensures
        c0 * (c1 * (c2 * 1)) == (if c0 == 3 || c1 == 3 || c2 == 3 {
            3int
        } else {
            4int
        }),
{
    assert(c0 * (c1 * (c2 * 1)) == (if c0 == 3 || c1 == 3 || c2 == 3 {
        3int
    } else {
        4int
    })) by (nonlinear_arith)
        requires
            1 <= c0 <= 3,
            1 <= c1 <= 3,
            1 <= c2 <= 3,
            c0 + c1 + c2 == 5,
    ;
}

/// Product of three window counts that miss at least one card.
proof fn lemma_prod3_part(c0: int, c1: int, c2: int)
    requires
        1 <= c0,
        1 <= c1,
        1 <= c2,
        c0 + c1 + c2 <= 4,
    ensures
        1 <= c0 * (c1 * (c2 * 1)) <= 2,
{
    assert(1 <= c0 * (c1 * (c2 * 1)) <= 2) by (nonlinear_arith)
        requires
            1 <= c0,
            1 <= c1,
            1 <= c2,
            c0 + c1 + c2 <= 4,
    ;
}

/// Product of four window counts holding at most five cards.
proof fn lemma_prod4(c0: int, c1: int, c2: int, c3: int)
    requires
        1 <= c0,
        1 <= c1,
        1 <= c2,
        1 <= c3,
        c0 + c1 + c2 + c3 <= 5,
    ensures
        1 <= c0 * (c1 * (c2 * (c3 * 1))) <= 2,
{
    assert(1 <= c0 * (c1 * (c2 * (c3 * 1))) <= 2) by (nonlinear_arith)
        requires
            1 <= c0,
            1 <= c1,
            1 <= c2,
            1 <= c3,
            c0 + c1 + c2 + c3 <= 5,
    ;
}

/// A full three-rank window: the pair points and run points together stay
/// within sixteen, whichever way five cards fill three consecutive ranks.
#[verifier::rlimit(100)]
proof fn lemma_block3_full(s: Seq<Card>, b: int)
    requires
        s.len() == 5,
        0 <= b,
        b + 3 <= 13,
        forall|i: int| b <= i < b + 3 ==> rank_count(s, i) >= 1,
        rank_count_sum(s, b, 3) == 5,
    ensures
        2 * pc_of(s) + 3 * run_product(s, b, 3) <= 16,
        pc_of(s) >= 2,
        0 <= 3 * run_product(s, b, 3) <= 12,
{
    lemma_rc_closed(s);
    lemma_pairs_are_rank_pairs(s);
    let r0 = rank_of(s[0].number);
    let r1 = rank_of(s[1].number);
    let r2 = rank_of(s[2].number);
    let r3 = rank_of(s[3].number);
    let r4 = rank_of(s[4].number);
    assert(rank_count_sum(s, b + 3, 0) == 0);
    assert(rank_count_sum(s, b + 2, 1) == rank_count(s, b + 2) + rank_count_sum(s, b + 3, 0));
    assert(rank_count_sum(s, b + 1, 2) == rank_count(s, b + 1) + rank_count_sum(s, b + 2, 1));
    assert(rank_count_sum(s, b + 0, 3) == rank_count(s, b + 0) + rank_count_sum(s, b + 1, 2));
    assert(run_product(s, b + 3, 0) == 1);
    assert(run_product(s, b + 2, 1) == rank_count(s, b + 2) * run_product(s, b + 3, 0));
    assert(run_product(s, b + 1, 2) == rank_count(s, b + 1) * run_product(s, b + 2, 1));
    assert(run_product(s, b + 0, 3) == rank_count(s, b + 0) * run_product(s, b + 1, 2));
    assert(rank_count(s, b + 0) == rank_form(s[0].number, s[1].number, s[2].number, s[3].number, s[4].number, b + 0));
    assert(rank_count(s, b + 1) == rank_form(s[0].number, s[1].number, s[2].number, s[3].number, s[4].number, b + 1));
    assert(rank_count(s, b + 2) == rank_form(s[0].number, s[1].number, s[2].number, s[3].number, s[4].number, b + 2));
    lemma_all_in_window(s, b, 3, 0);
    lemma_all_in_window(s, b, 3, 1);
    lemma_all_in_window(s, b, 3, 2);
    lemma_all_in_window(s, b, 3, 3);
    lemma_all_in_window(s, b, 3, 4);
    let c0 = rank_count(s, b);
    let c1 = rank_count(s, b + 1);
    let c2 = rank_count(s, b + 2);
    assert(1 <= c0 <= 3 && 1 <= c1 <= 3 && 1 <= c2 <= 3);
    lemma_pairs_split3(s, b);
    lemma_slot_pairs_count(s, b);
    lemma_slot_pairs_count(s, b + 1);
    lemma_slot_pairs_count(s, b + 2);
    lemma_out_pairs_bound(s, b, 3);
    lemma_window_cards3(s, b);
    assert(out_pairs(s, b, 3) == 0);
    lemma_sq_small(c0);
    lemma_sq_small(c1);
    lemma_sq_small(c2);
    lemma_prod3_full(c0, c1, c2);
    assert(run_product(s, b, 3) == c0 * (c1 * (c2 * 1)));
    if c0 == 3 || c1 == 3 || c2 == 3 {
        assert(pc_of(s) == 3);
    } else {
        assert(pc_of(s) == 2);
    }
}

/// The fifteens of a full three-rank window stay at six or fewer.
#[verifier::rlimit(100)]
proof fn lemma_block3_full_f15(s: Seq<Card>, b: int)
    requires
        s.len() == 5,
        0 <= b,
        b + 3 <= 13,
        forall|i: int| b <= i < b + 3 ==> rank_count(s, i) >= 1,
        rank_count_sum(s, b, 3) == 5,
    ensures
        f15_of(s) <= 6,
{
    lemma_rc_closed(s);
    lemma_pairs_are_rank_pairs(s);
    lemma_low_pairs_le_pairs(s);
    lemma_value_from_rank(s[0].number);
    lemma_value_from_rank(s[1].number);
    lemma_value_from_rank(s[2].number);
    lemma_value_from_rank(s[3].number);
    lemma_value_from_rank(s[4].number);
    let r0 = rank_of(s[0].number);
    let r1 = rank_of(s[1].number);
    let r2 = rank_of(s[2].number);
    let r3 = rank_of(s[3].number);
    let r4 = rank_of(s[4].number);
    let v0 = value_of(s[0].number);
    let v1 = value_of(s[1].number);
    let v2 = value_of(s[2].number);
    let v3 = value_of(s[3].number);
    let v4 = value_of(s[4].number);
    lemma_all_in_window(s, b, 3, 0);
    lemma_all_in_window(s, b, 3, 1);
    lemma_all_in_window(s, b, 3, 2);
    lemma_all_in_window(s, b, 3, 3);
    lemma_all_in_window(s, b, 3, 4);
    let a = if b + 1 <= 10 {
        b + 1
    } else {
        10int
    };
    assert(a <= v0 <= a + 2 && a <= v1 <= a + 2 && a <= v2 <= a + 2 && a <= v3 <= a + 2 && a <= v4
        <= a + 2);
    assert(!(v0 == v1 && v1 == v2 && v2 == v3 && v3 == v4 && v0 != 10)) by {
        if v0 == v1 && v1 == v2 && v2 == v3 && v3 == v4 && v0 != 10 {
            assert(r0 == r1 && r1 == r2 && r2 == r3 && r3 == r4);
            lemma_rc_closed(s);
            assert(rank_count(s, r0) == rank_form(s[0].number, s[1].number, s[2].number, s[3].number, s[4].number, r0));
            assert(rank_count_sum(s, b + 3, 0) == 0);
            assert(rank_count_sum(s, b + 2, 1) == rank_count(s, b + 2) + rank_count_sum(s, b + 3, 0));
            assert(rank_count_sum(s, b + 1, 2) == rank_count(s, b + 1) + rank_count_sum(s, b + 2, 1));
            assert(rank_count_sum(s, b, 3) == rank_count(s, b) + rank_count_sum(s, b + 1, 2));
        }
    }
    lemma_form_window_le_6(v0, v1, v2, v3, v4, a);
}

/// A three-rank run whose window misses a card: at most one pair, the run
/// product at most two, the fifteens at most six.
#[verifier::rlimit(100)]
proof fn lemma_block3_part(s: Seq<Card>, b: int)
    requires
        s.len() == 5,
        0 <= b,
        b + 3 <= 13,
        forall|i: int| b <= i < b + 3 ==> rank_count(s, i) >= 1,
        rank_count_sum(s, b, 3) <= 4,
    ensures
        2 * f15_of(s) + 2 * pc_of(s) + 3 * run_product(s, b, 3) <= 22,
        0 <= 3 * run_product(s, b, 3) <= 12,
        pc_of(s) >= 0,
{
    lemma_rc_closed(s);
    lemma_pairs_are_rank_pairs(s);
    lemma_low_pairs_le_pairs(s);
    lemma_value_from_rank(s[0].number);
    lemma_value_from_rank(s[1].number);
    lemma_value_from_rank(s[2].number);
    lemma_value_from_rank(s[3].number);
    lemma_value_from_rank(s[4].number);
    let r0 = rank_of(s[0].number);
    let r1 = rank_of(s[1].number);
    let r2 = rank_of(s[2].number);
    let r3 = rank_of(s[3].number);
    let r4 = rank_of(s[4].number);
    let v0 = value_of(s[0].number);
    let v1 = value_of(s[1].number);
    let v2 = value_of(s[2].number);
    let v3 = value_of(s[3].number);
    let v4 = value_of(s[4].number);
    assert(rank_count_sum(s, b + 3, 0) == 0);
    assert(rank_count_sum(s, b + 2, 1) == rank_count(s, b + 2) + rank_count_sum(s, b + 3, 0));
    assert(rank_count_sum(s, b + 1, 2) == rank_count(s, b + 1) + rank_count_sum(s, b + 2, 1));
    assert(rank_count_sum(s, b + 0, 3) == rank_count(s, b + 0) + rank_count_sum(s, b + 1, 2));
    assert(run_product(s, b + 3, 0) == 1);
    assert(run_product(s, b + 2, 1) == rank_count(s, b + 2) * run_product(s, b + 3, 0));
    assert(run_product(s, b + 1, 2) == rank_count(s, b + 1) * run_product(s, b + 2, 1));
    assert(run_product(s, b + 0, 3) == rank_count(s, b + 0) * run_product(s, b + 1, 2));
    assert(rank_count(s, b + 0) == rank_form(s[0].number, s[1].number, s[2].number, s[3].number, s[4].number, b + 0));
    assert(rank_count(s, b + 1) == rank_form(s[0].number, s[1].number, s[2].number, s[3].number, s[4].number, b + 1));
    assert(rank_count(s, b + 2) == rank_form(s[0].number, s[1].number, s[2].number, s[3].number, s[4].number, b + 2));
    lemma_pairs_split3(s, b);
    lemma_slot_pairs_count(s, b);
    lemma_slot_pairs_count(s, b + 1);
    lemma_slot_pairs_count(s, b + 2);
    lemma_out_pairs_bound(s, b, 3);
    lemma_window_cards3(s, b);
    lemma_rank_count_sum_nonneg(s, b, 3);
    let c0 = rank_count(s, b);
    let c1 = rank_count(s, b + 1);
    let c2 = rank_count(s, b + 2);
    assert(c0 >= 1 && c1 >= 1 && c2 >= 1);
    assert(c0 + c1 + c2 == rank_count_sum(s, b, 3));
    assert(1 <= c0 <= 2 && 1 <= c1 <= 2 && 1 <= c2 <= 2);
    lemma_sq_small(c0);
    lemma_sq_small(c1);
    lemma_sq_small(c2);
    lemma_prod3_part(c0, c1, c2);
    assert(run_product(s, b, 3) == c0 * (c1 * (c2 * 1)));
    let nout = 5 - window_cards(s, b, 3);
    assert(nout == 5 - rank_count_sum(s, b, 3));
    assert(1 <= nout <= 2);
    assert(2 * out_pairs(s, b, 3) <= nout * nout - nout);
    assert(nout * nout - nout == (if nout == 1 {
        0int
    } else {
        2int
    })) by (nonlinear_arith)
        requires
            1 <= nout <= 2,
    ;
    if rank_count_sum(s, b, 3) == 4 {
        assert(slot_pairs(s, b) + slot_pairs(s, b + 1) + slot_pairs(s, b + 2) <= 1);
        assert(out_pairs(s, b, 3) == 0);
    } else {
        assert(slot_pairs(s, b) + slot_pairs(s, b + 1) + slot_pairs(s, b + 2) == 0);
        assert(out_pairs(s, b, 3) <= 1);
    }
    assert(pc_of(s) <= 1);
    lemma_form_one_low_pair_le_6(v0, v1, v2, v3, v4);
}

/// A run over three ranks, every arrangement: pair and run points together
/// bounded, and tighter when at most one pair is present.
proof fn lemma_block3(s: Seq<Card>, b: int)
    requires
        s.len() == 5,
        0 <= b,
        b + 3 <= 13,
        forall|i: int| b <= i < b + 3 ==> rank_count(s, i) >= 1,
        rank_count_sum(s, b, 3) <= 5,
    ensures
        2 * f15_of(s) + 2 * pc_of(s) + 3 * run_product(s, b, 3) <= 28,
        pc_of(s) <= 1 ==> 2 * f15_of(s) + 2 * pc_of(s) + 3 * run_product(s, b, 3) <= 22,
        0 <= 3 * run_product(s, b, 3) <= 12,
        pc_of(s) >= 0,
{
    if rank_count_sum(s, b, 3) == 5 {
        lemma_block3_full(s, b);
        lemma_block3_full_f15(s, b);
    } else {
        lemma_rank_count_sum_nonneg(s, b, 3);
        lemma_block3_part(s, b);
    }
}

/// Walking the ranks, any non-zero run score is one block's score, and the
/// block bounds apply to it.
proof fn lemma_runs_cases(s: Seq<Card>, r: int)
    requires
        0 <= r <= 13,
        s.len() == 5,
    ensures
        0 <= run_points_from(s, r) <= 12,
        run_points_from(s, r) != 0 ==> 2 * f15_of(s) + 2 * pc_of(s) + run_points_from(s, r) <= 28,
        run_points_from(s, r) != 0 && pc_of(s) <= 1 ==> 2 * f15_of(s) + 2 * pc_of(s)
            + run_points_from(s, r) <= 22,
    decreases 13 - r,
{
    if r >= 13 {
    } else if rank_count(s, r) == 0 {
        lemma_runs_cases(s, r + 1);
    } else {
        let l = run_len_from(s, r);
        lemma_run_len_from_bounds(s, r);
        lemma_run_len_from_bounds(s, r + 1);
        assert(l >= 1);
        assert forall|i: int| r <= i < r + l implies rank_count(s, i) >= 1 by {
            lemma_run_ranks_present(s, r, i - r);
        }
        lemma_run_product_bound(s, r, l);
        lemma_rank_window_le_len(s, r, l);
        assert(l <= 5);
        if l >= 3 {
            lemma_rank_window_le_len(s, r, 13 - r);
            lemma_rank_count_sum_split(s, r, l, 13 - r - l);
            lemma_rank_count_sum_nonneg(s, r, l);
            assert(rank_count_sum(s, r + l, 13 - r - l) <= 2);
            lemma_run_points_from_zero(s, r + l);
            assert(run_points_from(s, r) == l * run_product(s, r, l));
            if l == 3 {
                lemma_block3(s, r);
            } else if l == 4 {
                lemma_block4(s, r);
            } else {
                lemma_block5(s, r);
            }
        } else {
            assert(run_points_from(s, r) == run_points_from(s, r + l));
            lemma_runs_cases(s, r + l);
        }
    }
}

/// The score of five pairwise distinct cards lies between 0 and 29. With a
/// duplicated card, which a real deal cannot produce, the bound would fail,
/// so duplicates are excluded here.
#[verifier::rlimit(100)]
pub proof fn lemma_score_in_range(h: Hand, starter: Card, crib: bool)
    requires
        forall|i: int, j: int|
            0 <= i < j < 5 ==> five_cards(h, starter)[i] != five_cards(h, starter)[j],
    ensures
        0 <= spec_score(h, starter, crib) <= 29,
{
    let s = five_cards(h, starter);
    assert(s.len() == 5);
    lemma_f15_closed(s);
    lemma_pc_closed(s);
    lemma_not_all_same_number(s);
    lemma_value_from_rank(s[0].number);
    lemma_value_from_rank(s[1].number);
    lemma_value_from_rank(s[2].number);
    lemma_value_from_rank(s[3].number);
    lemma_value_from_rank(s[4].number);
    let v0 = value_of(s[0].number);
    let v1 = value_of(s[1].number);
    let v2 = value_of(s[2].number);
    let v3 = value_of(s[3].number);
    let v4 = value_of(s[4].number);
    assert(!(v0 == v1 && v1 == v2 && v2 == v3 && v3 == v4 && v0 != 10)) by {
        if v0 == v1 && v1 == v2 && v2 == v3 && v3 == v4 && v0 != 10 {
            crate::cards::lemma_rank_of_injective(s[0].number, s[1].number);
            crate::cards::lemma_rank_of_injective(s[1].number, s[2].number);
            crate::cards::lemma_rank_of_injective(s[2].number, s[3].number);
            crate::cards::lemma_rank_of_injective(s[3].number, s[4].number);
        }
    }
    lemma_form_le_8(v0, v1, v2, v3, v4);
    lemma_pairs_le_6(s[0].number, s[1].number, s[2].number, s[3].number, s[4].number);
    crate::score::lemma_fifteen_count_bound(s, 15);
    crate::score::lemma_pair_count_bound(s);
    lemma_runs_cases(s, 0);
    lemma_low_pairs_le_pairs(s);
    assert(0 <= knob_points(h, starter) <= 1);
    assert(fifteen_count(s, 15) == f15_of(s));
    assert(pair_count(s) == pc_of(s));
    assert(run_points(s) == run_points_from(s, 0));
    if suit_uniform(h) {
        assert(forall|i: int| 0 <= i < 4 ==> s[i] == h@[i]);
        assert forall|i: int, j: int| 0 <= i < j < 4 implies s[i].number != s[j].number by {
            assert(s[i].suit == s[j].suit);
            assert(s[i] != s[j]);
        }
        assert(pc_of(s) <= 1) by {
            lemma_pairs_are_rank_pairs(s);
            assert forall|i: int, j: int|
                0 <= i < j < 4 implies npair(s[i].number, s[j].number) == 0 by {}
            if npair(s[0].number, s[4].number) + npair(s[1].number, s[4].number) + npair(
                s[2].number,
                s[4].number,
            ) + npair(s[3].number, s[4].number) >= 2 {
                assert(false);
            }
        }
        assert(flush_points(h, starter, crib) <= 5);
        lemma_form_one_low_pair_le_6(v0, v1, v2, v3, v4);
        if run_points(s) == 0 {
            assert(spec_score(h, starter, crib) <= 5 + 2 * 6 + 2 * 1 + 0 + 1);
        } else {
            assert(2 * f15_of(s) + 2 * pc_of(s) + run_points_from(s, 0) <= 22);
            assert(spec_score(h, starter, crib) <= 5 + 22 + 1);
        }
    } else {
        assert(flush_points(h, starter, crib) == 0);
        if run_points(s) == 0 {
            assert(spec_score(h, starter, crib) <= 0 + 2 * 8 + 2 * 6 + 0 + 1);
        } else {
            assert(spec_score(h, starter, crib) <= 0 + 28 + 1);
        }
    }
}

} // verus!
