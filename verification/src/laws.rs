//! Properties of the scoring engine that hold across calls: the score
//! ignores the order of the hand's cards, and a crib never scores above the
//! same cards outside a crib.

use vstd::prelude::*;

use crate::cards::{rank_of, value_of, Card, Hand, Number};
use crate::score::{
    fifteen_count, five_cards, flush_points, knob_points, matches_in, pair_count, rank_count,
    run_len_from, run_points, run_points_from, run_product, spec_score, suit_uniform,
};

verus! {

/// Removing any one card splits the subset count: subsets without that card,
/// and subsets with it.
proof fn lemma_fifteen_count_remove(s: Seq<Card>, i: int, t: int)
    requires
        0 <= i < s.len(),
    ensures
        fifteen_count(s, t) == fifteen_count(s.remove(i), t) + fifteen_count(
            s.remove(i),
            t - value_of(s[i].number),
        ),
    decreases s.len(),
{
    if i == s.len() - 1 {
        assert(s.remove(i) =~= s.drop_last());
    } else {
        let sp = s.drop_last();
        let last = s.last();
        lemma_fifteen_count_remove(sp, i, t);
        lemma_fifteen_count_remove(sp, i, t - value_of(last.number));
        assert(s.remove(i).drop_last() =~= sp.remove(i));
        assert(s.remove(i).last() == last);
    }
}

/// The subset count depends only on which cards are present, not on their
/// order.
proof fn lemma_fifteen_count_perm(s1: Seq<Card>, s2: Seq<Card>, t: int)
    requires
        s1.to_multiset() == s2.to_multiset(),
    ensures
        fifteen_count(s1, t) == fifteen_count(s2, t),
    decreases s1.len(),
{
    broadcast use vstd::seq_lib::group_to_multiset_ensures;

    assert(s1.to_multiset().len() == s1.len());
    assert(s2.to_multiset().len() == s2.len());
    if s1.len() == 0 {
        assert(s2.len() == 0);
    } else {
        let x = s1.last();
        assert(s1.contains(x));
        assert(s1.to_multiset().count(x) > 0);
        assert(s2.to_multiset().count(x) > 0);
        assert(s2.contains(x));
        let j = choose|j: int| 0 <= j < s2.len() && s2[j] == x;
        lemma_fifteen_count_remove(s2, j, t);
        assert(s1.drop_last() =~= s1.remove(s1.len() - 1));
        assert(s1.drop_last().to_multiset() == s2.remove(j).to_multiset());
        lemma_fifteen_count_perm(s1.drop_last(), s2.remove(j), t);
        lemma_fifteen_count_perm(s1.drop_last(), s2.remove(j), t - value_of(x.number));
    }
}

/// Removing any one card lowers its rank's match count by one.
proof fn lemma_matches_in_remove(s: Seq<Card>, i: int, n: Number)
    requires
        0 <= i < s.len(),
    ensures
        matches_in(s, n) == matches_in(s.remove(i), n) + if s[i].number == n {
            1int
        } else {
            0int
        },
    decreases s.len(),
{
    if i == s.len() - 1 {
        assert(s.remove(i) =~= s.drop_last());
    } else {
        lemma_matches_in_remove(s.drop_last(), i, n);
        assert(s.remove(i).drop_last() =~= s.drop_last().remove(i));
        assert(s.remove(i).last() == s.last());
    }
}

/// Removing any one card splits the pair count: pairs among the others, and
/// pairs the removed card formed with them.
proof fn lemma_pair_count_remove(s: Seq<Card>, i: int)
    requires
        0 <= i < s.len(),
    ensures
        pair_count(s) == pair_count(s.remove(i)) + matches_in(s.remove(i), s[i].number),
    decreases s.len(),
{
    if i == s.len() - 1 {
        assert(s.remove(i) =~= s.drop_last());
    } else {
        let sp = s.drop_last();
        let last = s.last();
        lemma_pair_count_remove(sp, i);
        lemma_matches_in_remove(sp, i, last.number);
        assert(s.remove(i).drop_last() =~= sp.remove(i));
        assert(s.remove(i).last() == last);
    }
}

/// The pair count depends only on which cards are present.
proof fn lemma_pair_count_perm(s1: Seq<Card>, s2: Seq<Card>)
    requires
        s1.to_multiset() == s2.to_multiset(),
    ensures
        pair_count(s1) == pair_count(s2),
    decreases s1.len(),
{
    broadcast use vstd::seq_lib::group_to_multiset_ensures;

    assert(s1.to_multiset().len() == s1.len());
    assert(s2.to_multiset().len() == s2.len());
    if s1.len() == 0 {
        assert(s2.len() == 0);
    } else {
        let x = s1.last();
        assert(s1.contains(x));
        assert(s1.to_multiset().count(x) > 0);
        assert(s2.to_multiset().count(x) > 0);
        assert(s2.contains(x));
        let j = choose|j: int| 0 <= j < s2.len() && s2[j] == x;
        lemma_pair_count_remove(s2, j);
        assert(s1.drop_last() =~= s1.remove(s1.len() - 1));
        assert(s1.drop_last().to_multiset() == s2.remove(j).to_multiset());
        lemma_pair_count_perm(s1.drop_last(), s2.remove(j));
        lemma_matches_in_perm(s1.drop_last(), s2.remove(j), x.number);
    }
}

/// The match count of a rank depends only on which cards are present.
proof fn lemma_matches_in_perm(s1: Seq<Card>, s2: Seq<Card>, n: Number)
    requires
        s1.to_multiset() == s2.to_multiset(),
    ensures
        matches_in(s1, n) == matches_in(s2, n),
    decreases s1.len(),
{
    broadcast use vstd::seq_lib::group_to_multiset_ensures;

    assert(s1.to_multiset().len() == s1.len());
    assert(s2.to_multiset().len() == s2.len());
    if s1.len() == 0 {
        assert(s2.len() == 0);
    } else {
        let x = s1.last();
        assert(s1.contains(x));
        assert(s1.to_multiset().count(x) > 0);
        assert(s2.to_multiset().count(x) > 0);
        assert(s2.contains(x));
        let j = choose|j: int| 0 <= j < s2.len() && s2[j] == x;
        lemma_matches_in_remove(s2, j, n);
        assert(s1.drop_last() =~= s1.remove(s1.len() - 1));
        assert(s1.drop_last().to_multiset() == s2.remove(j).to_multiset());
        lemma_matches_in_perm(s1.drop_last(), s2.remove(j), n);
    }
}

/// Removing any one card lowers its rank's count by one.
proof fn lemma_rank_count_remove(s: Seq<Card>, i: int, r: int)
    requires
        0 <= i < s.len(),
    ensures
        rank_count(s, r) == rank_count(s.remove(i), r) + if rank_of(s[i].number) == r {
            1int
        } else {
            0int
        },
    decreases s.len(),
{
    if i == s.len() - 1 {
        assert(s.remove(i) =~= s.drop_last());
    } else {
        lemma_rank_count_remove(s.drop_last(), i, r);
        assert(s.remove(i).drop_last() =~= s.drop_last().remove(i));
        assert(s.remove(i).last() == s.last());
    }
}

/// A rank's count depends only on which cards are present.
proof fn lemma_rank_count_perm(s1: Seq<Card>, s2: Seq<Card>, r: int)
    requires
        s1.to_multiset() == s2.to_multiset(),
    ensures
        rank_count(s1, r) == rank_count(s2, r),
    decreases s1.len(),
{
    broadcast use vstd::seq_lib::group_to_multiset_ensures;

    assert(s1.to_multiset().len() == s1.len());
    assert(s2.to_multiset().len() == s2.len());
    if s1.len() == 0 {
        assert(s2.len() == 0);
    } else {
        let x = s1.last();
        assert(s1.contains(x));
        assert(s1.to_multiset().count(x) > 0);
        assert(s2.to_multiset().count(x) > 0);
        assert(s2.contains(x));
        let j = choose|j: int| 0 <= j < s2.len() && s2[j] == x;
        lemma_rank_count_remove(s2, j, r);
        assert(s1.drop_last() =~= s1.remove(s1.len() - 1));
        assert(s1.drop_last().to_multiset() == s2.remove(j).to_multiset());
        lemma_rank_count_perm(s1.drop_last(), s2.remove(j), r);
    }
}

/// The run machinery reads a sequence only through its rank counts.
proof fn lemma_run_len_from_counts(s1: Seq<Card>, s2: Seq<Card>, r: int)
    requires
        forall|q: int| rank_count(s1, q) == rank_count(s2, q),
    ensures
        run_len_from(s1, r) == run_len_from(s2, r),
    decreases 13 - r,
{
    if r < 13 && rank_count(s1, r) != 0 {
        lemma_run_len_from_counts(s1, s2, r + 1);
    }
}

proof fn lemma_run_product_counts(s1: Seq<Card>, s2: Seq<Card>, r: int, len: int)
    requires
        forall|q: int| rank_count(s1, q) == rank_count(s2, q),
    ensures
        run_product(s1, r, len) == run_product(s2, r, len),
    decreases len,
{
    if len > 0 {
        lemma_run_product_counts(s1, s2, r + 1, len - 1);
    }
}

proof fn lemma_run_points_from_counts(s1: Seq<Card>, s2: Seq<Card>, r: int)
    requires
        forall|q: int| rank_count(s1, q) == rank_count(s2, q),
    ensures
        run_points_from(s1, r) == run_points_from(s2, r),
    decreases 13 - r,
{
    if r >= 13 {
    } else if rank_count(s1, r) == 0 {
        lemma_run_points_from_counts(s1, s2, r + 1);
    } else {
        let l = run_len_from(s1, r);
        lemma_run_len_from_counts(s1, s2, r);
        lemma_run_product_counts(s1, s2, r, l);
        crate::score::lemma_run_len_from_bounds(s1, r);
        crate::score::lemma_run_len_from_bounds(s1, r + 1);
        lemma_run_points_from_counts(s1, s2, r + l);
    }
}

/// The score ignores the order of the hand's four cards: two hands holding
/// the same cards score identically against every starter, in and out of a
/// crib.
pub proof fn lemma_score_symmetry(h1: Hand, h2: Hand, starter: Card, crib: bool)
    requires
        h1@.to_multiset() == h2@.to_multiset(),
        h1@.len() == 4,
        h2@.len() == 4,
    ensures
        spec_score(h1, starter, crib) == spec_score(h2, starter, crib),
{
    broadcast use vstd::seq_lib::group_to_multiset_ensures;

    let f1 = five_cards(h1, starter);
    let f2 = five_cards(h2, starter);
    assert(f1.to_multiset() == f2.to_multiset());
    // flush: a permutation keeps suit uniformity and the uniform suit
    assert(flush_points(h1, starter, crib) == flush_points(h2, starter, crib)) by {
        assert forall|i: int| 0 <= i < 4 implies h1@.contains(#[trigger] h2@[i]) by {
            assert(h2@.contains(h2@[i]));
            assert(h2@.to_multiset().count(h2@[i]) > 0);
            assert(h1@.to_multiset().count(h2@[i]) > 0);
        }
        assert forall|i: int| 0 <= i < 4 implies h2@.contains(#[trigger] h1@[i]) by {
            assert(h1@.contains(h1@[i]));
            assert(h1@.to_multiset().count(h1@[i]) > 0);
            assert(h2@.to_multiset().count(h1@[i]) > 0);
        }
        if suit_uniform(h1) {
            assert forall|i: int| 0 <= i < 4 implies (#[trigger] h2@[i]).suit == h1@[0].suit by {
                let j = choose|j: int| 0 <= j < h1@.len() && h1@[j] == h2@[i];
                assert(h1@[j].suit == h1@[0].suit);
            }
            assert(suit_uniform(h2));
            assert(h2@[0].suit == h1@[0].suit);
        }
        if suit_uniform(h2) {
            assert forall|i: int| 0 <= i < 4 implies (#[trigger] h1@[i]).suit == h2@[0].suit by {
                let j = choose|j: int| 0 <= j < h2@.len() && h2@[j] == h1@[i];
                assert(h2@[j].suit == h2@[0].suit);
            }
            assert(suit_uniform(h1));
            assert(h1@[0].suit == h2@[0].suit);
        }
    }
    lemma_fifteen_count_perm(f1, f2, 15);
    lemma_pair_count_perm(f1, f2);
    assert forall|q: int| rank_count(f1, q) == rank_count(f2, q) by {
        lemma_rank_count_perm(f1, f2, q);
    }
    lemma_run_points_from_counts(f1, f2, 0);
    // nob: membership of the jack is a multiset fact
    assert(knob_points(h1, starter) == knob_points(h2, starter)) by {
        let jack = Card { number: Number::J, suit: starter.suit };
        assert(h1@.contains(jack) <==> h1@.to_multiset().count(jack) > 0);
        assert(h2@.contains(jack) <==> h2@.to_multiset().count(jack) > 0);
    }
}

/// Scoring as a crib never exceeds scoring the same hand and starter
/// outside a crib: only the flush rule differs, and the crib flush rule is
/// the stricter one.
pub proof fn lemma_crib_never_beats_hand(h: Hand, starter: Card)
    ensures
        spec_score(h, starter, true) <= spec_score(h, starter, false),
{
}

/// The score is a function of the hand, starter and crib flag alone: two
/// results of the same call agree. There is no hidden state.
pub proof fn lemma_score_deterministic(h: Hand, starter: Card, crib: bool, r1: u8, r2: u8)
    requires
        r1 == spec_score(h, starter, crib),
        r2 == spec_score(h, starter, crib),
    ensures
        r1 == r2,
{
}

} // verus!
