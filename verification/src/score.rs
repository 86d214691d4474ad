//! The scoring engine: the point value of a four-card hand with a starter.
//!
//! Every component is specified over the five-card combination (the hand's
//! four cards followed by the starter) as a sequence, through functions that
//! depend only on which cards are present, never on their order.

use vstd::prelude::*;

use crate::cards::{rank_of, value_of, Card, Hand, Number};

verus! {

/// The five-card combination a hand is scored on: its four cards, then the starter.
pub open spec fn five_cards(h: Hand, starter: Card) -> Seq<Card> {
    h@.push(starter)
}

/// Whether the four hand cards all share one suit.
pub open spec fn suit_uniform(h: Hand) -> bool {
    h@[1].suit == h@[0].suit && h@[2].suit == h@[0].suit && h@[3].suit == h@[0].suit
}

/// Flush points: 5 when hand and starter share one suit, 4 for a hand-only
/// flush outside a crib, and 0 for a hand-only flush in a crib (a crib flush
/// needs all five cards) or when the hand's suits are mixed.
pub open spec fn flush_points(h: Hand, starter: Card, crib: bool) -> int {
    if suit_uniform(h) {
        if starter.suit == h@[0].suit {
            5
        } else if !crib {
            4
        } else {
            0
        }
    } else {
        0
    }
}

/// How many subsets of `s` have face values summing to `target`.
///
/// For the target of fifteen this equals the number of subsets of size two
/// to five that reach it, since face values lie between 1 and 10: the empty
/// subset sums to 0 and a single card to at most 10.
pub open spec fn fifteen_count(s: Seq<Card>, target: int) -> int
    decreases s.len(),
{
    if s.len() == 0 {
        if target == 0 {
            1
        } else {
            0
        }
    } else {
        fifteen_count(s.drop_last(), target) + fifteen_count(
            s.drop_last(),
            target - value_of(s.last().number),
        )
    }
}

/// Fifteens score: two points for every subset summing to fifteen.
pub open spec fn fifteen_points(s: Seq<Card>) -> int {
    2 * fifteen_count(s, 15)
}

/// How many cards in `s` have the given rank.
pub open spec fn matches_in(s: Seq<Card>, n: Number) -> int
    decreases s.len(),
{
    if s.len() == 0 {
        0
    } else {
        matches_in(s.drop_last(), n) + if s.last().number == n {
            1int
        } else {
            0int
        }
    }
}

/// How many unordered pairs of positions in `s` hold cards of equal rank.
pub open spec fn pair_count(s: Seq<Card>) -> int
    decreases s.len(),
{
    if s.len() == 0 {
        0
    } else {
        pair_count(s.drop_last()) + matches_in(s.drop_last(), s.last().number)
    }
}

/// Pair score: two points for every pair of equal-rank cards.
pub open spec fn pair_points(s: Seq<Card>) -> int {
    2 * pair_count(s)
}

/// How many cards in `s` have rank index `r`.
pub open spec fn rank_count(s: Seq<Card>, r: int) -> int
    decreases s.len(),
{
    if s.len() == 0 {
        0
    } else {
        rank_count(s.drop_last(), r) + if rank_of(s.last().number) == r {
            1int
        } else {
            0int
        }
    }
}

/// Length of the contiguous stretch of present ranks beginning at rank `r`.
pub open spec fn run_len_from(s: Seq<Card>, r: int) -> int
    decreases 13 - r,
{
    if r >= 13 || rank_count(s, r) == 0 {
        0
    } else {
        1 + run_len_from(s, r + 1)
    }
}

/// Product of the rank multiplicities over `len` consecutive ranks from `r`.
pub open spec fn run_product(s: Seq<Card>, r: int, len: int) -> int
    decreases len,
{
    if len <= 0 {
        1
    } else {
        rank_count(s, r) * run_product(s, r + 1, len - 1)
    }
}

/// Run score accumulated from rank `r` upward: every maximal contiguous
/// stretch of at least three present ranks scores its length times the
/// product of its rank multiplicities (so a duplicated rank doubles the run).
///
/// With at most five cards, at most one stretch can reach length three, so
/// this sum has at most one non-zero term: it agrees with taking the first
/// qualifying stretch found scanning ranks low to high.
pub open spec fn run_points_from(s: Seq<Card>, r: int) -> int
    decreases 13 - r,
    via run_points_from_decreases
{
    if r >= 13 {
        0
    } else if rank_count(s, r) == 0 {
        run_points_from(s, r + 1)
    } else {
        let l = run_len_from(s, r);
        (if l >= 3 {
            l * run_product(s, r, l)
        } else {
            0int
        }) + run_points_from(s, r + l)
    }
}

#[via_fn]
proof fn run_points_from_decreases(s: Seq<Card>, r: int) {
    if r < 13 && rank_count(s, r) != 0 {
        lemma_run_len_from_bounds(s, r);
        lemma_run_len_from_bounds(s, r + 1);
    }
}

/// Run score of the whole combination.
pub open spec fn run_points(s: Seq<Card>) -> int {
    run_points_from(s, 0)
}

/// Nob score: one point when the hand holds the jack of the starter's suit.
pub open spec fn knob_points(h: Hand, starter: Card) -> int {
    if h@.contains(Card { number: Number::J, suit: starter.suit }) {
        1
    } else {
        0
    }
}

/// The full score of a hand against a starter: flush, fifteens, pairs, runs
/// and the nob, summed.
pub open spec fn spec_score(h: Hand, starter: Card, crib: bool) -> int {
    flush_points(h, starter, crib) + fifteen_points(five_cards(h, starter)) + pair_points(
        five_cards(h, starter),
    ) + run_points(five_cards(h, starter)) + knob_points(h, starter)
}

/// Two raised to a small power.
pub open spec fn pow2i(n: nat) -> int
    decreases n,
{
    if n == 0 {
        1
    } else {
        2 * pow2i((n - 1) as nat)
    }
}

pub proof fn lemma_pow2i_pos(n: nat)
    ensures
        pow2i(n) >= 1,
    decreases n,
{
    if n > 0 {
        lemma_pow2i_pos((n - 1) as nat);
    }
}

pub proof fn lemma_pow2i_mono(a: nat, b: nat)
    requires
        a <= b,
    ensures
        pow2i(a) <= pow2i(b),
    decreases b,
{
    if a < b {
        lemma_pow2i_mono(a, (b - 1) as nat);
        lemma_pow2i_pos((b - 1) as nat);
    }
}

/// A subset count is never negative and never exceeds the number of subsets.
pub proof fn lemma_fifteen_count_bound(s: Seq<Card>, t: int)
    ensures
        0 <= fifteen_count(s, t) <= pow2i(s.len()),
    decreases s.len(),
{
    if s.len() == 0 {
    } else {
        lemma_fifteen_count_bound(s.drop_last(), t);
        lemma_fifteen_count_bound(s.drop_last(), t - value_of(s.last().number));
    }
}

/// No subset of cards sums to a negative target: face values are positive.
pub proof fn lemma_fifteen_count_neg(s: Seq<Card>, t: int)
    requires
        t < 0,
    ensures
        fifteen_count(s, t) == 0,
    decreases s.len(),
{
    if s.len() == 0 {
    } else {
        lemma_fifteen_count_neg(s.drop_last(), t);
        lemma_fifteen_count_neg(s.drop_last(), t - value_of(s.last().number));
    }
}

pub proof fn lemma_matches_in_bound(s: Seq<Card>, n: Number)
    ensures
        0 <= matches_in(s, n) <= s.len(),
    decreases s.len(),
{
    if s.len() > 0 {
        lemma_matches_in_bound(s.drop_last(), n);
    }
}

pub proof fn lemma_pair_count_bound(s: Seq<Card>)
    ensures
        0 <= pair_count(s),
        2 * pair_count(s) <= s.len() * (s.len() - 1),
    decreases s.len(),
{
    if s.len() > 0 {
        lemma_pair_count_bound(s.drop_last());
        lemma_matches_in_bound(s.drop_last(), s.last().number);
        let n = s.len() as int;
        assert((n - 1) * (n - 2) + 2 * (n - 1) == n * (n - 1)) by (nonlinear_arith);
    }
}

pub proof fn lemma_rank_count_bound(s: Seq<Card>, r: int)
    ensures
        0 <= rank_count(s, r) <= s.len(),
    decreases s.len(),
{
    if s.len() > 0 {
        lemma_rank_count_bound(s.drop_last(), r);
    }
}

/// Sum of the rank multiplicities over `len` consecutive ranks from `r`.
pub open spec fn rank_count_sum(s: Seq<Card>, r: int, len: int) -> int
    decreases len,
{
    if len <= 0 {
        0
    } else {
        rank_count(s, r) + rank_count_sum(s, r + 1, len - 1)
    }
}

pub proof fn lemma_rank_count_sum_nonneg(s: Seq<Card>, r: int, len: int)
    ensures
        0 <= rank_count_sum(s, r, len),
    decreases len,
{
    if len > 0 {
        lemma_rank_count_bound(s, r);
        lemma_rank_count_sum_nonneg(s, r + 1, len - 1);
    }
}

pub proof fn lemma_rank_count_sum_split(s: Seq<Card>, r: int, l1: int, l2: int)
    requires
        0 <= l1,
        0 <= l2,
    ensures
        rank_count_sum(s, r, l1 + l2) == rank_count_sum(s, r, l1) + rank_count_sum(s, r + l1, l2),
    decreases l1,
{
    if l1 > 0 {
        lemma_rank_count_sum_split(s, r + 1, l1 - 1, l2);
    }
}

/// Every card has a rank between 0 and 12, so the multiplicities of the
/// thirteen ranks sum to the number of cards.
pub proof fn lemma_rank_count_sum_full(s: Seq<Card>)
    ensures
        rank_count_sum(s, 0, 13) == s.len(),
    decreases s.len(),
{
    if s.len() == 0 {
        lemma_rank_count_sum_empty(s, 0, 13);
    } else {
        lemma_rank_count_sum_full(s.drop_last());
        lemma_rank_count_sum_drop_last(s, 0, 13);
        assert(0 <= rank_of(s.last().number) < 13);
    }
}

proof fn lemma_rank_count_sum_empty(s: Seq<Card>, r: int, len: int)
    requires
        s.len() == 0,
    ensures
        rank_count_sum(s, r, len) == 0,
    decreases len,
{
    if len > 0 {
        lemma_rank_count_sum_empty(s, r + 1, len - 1);
    }
}

/// Dropping the last card lowers the sum over a rank window by one exactly
/// when the dropped card's rank lies in the window.
proof fn lemma_rank_count_sum_drop_last(s: Seq<Card>, r: int, len: int)
    requires
        s.len() > 0,
    ensures
        rank_count_sum(s, r, len) == rank_count_sum(s.drop_last(), r, len) + if r <= rank_of(
            s.last().number,
        ) < r + len {
            1int
        } else {
            0int
        },
    decreases len,
{
    if len > 0 {
        lemma_rank_count_sum_drop_last(s, r + 1, len - 1);
    }
}

/// A window of ranks inside the thirteen cannot hold more cards than exist.
pub proof fn lemma_rank_window_le_len(s: Seq<Card>, r: int, len: int)
    requires
        0 <= r,
        0 <= len,
        r + len <= 13,
    ensures
        rank_count_sum(s, r, len) <= s.len(),
{
    lemma_rank_count_sum_full(s);
    lemma_rank_count_sum_split(s, 0, r, 13 - r);
    lemma_rank_count_sum_split(s, r, len, 13 - r - len);
    lemma_rank_count_sum_nonneg(s, 0, r);
    lemma_rank_count_sum_nonneg(s, r + len, 13 - r - len);
}

pub proof fn lemma_run_len_from_bounds(s: Seq<Card>, r: int)
    requires
        r <= 13,
    ensures
        0 <= run_len_from(s, r) <= 13 - r,
    decreases 13 - r,
{
    if r < 13 && rank_count(s, r) != 0 {
        lemma_run_len_from_bounds(s, r + 1);
    }
}

/// Every rank inside a run is present at least once.
pub proof fn lemma_run_ranks_present(s: Seq<Card>, r: int, i: int)
    requires
        0 <= i < run_len_from(s, r),
        r <= 13,
    ensures
        rank_count(s, r + i) >= 1,
    decreases i,
{
    lemma_run_len_from_bounds(s, r);
    lemma_rank_count_bound(s, r);
    if i > 0 {
        lemma_run_len_from_bounds(s, r + 1);
        lemma_run_ranks_present(s, r + 1, i - 1);
    }
}

/// The run length starting at `r` is `m - r` exactly when the ranks up to
/// `m` are all present and the stretch stops at `m`.
pub proof fn lemma_run_len_eq(s: Seq<Card>, r: int, m: int)
    requires
        0 <= r <= m <= 13,
        forall|i: int| r <= i < m ==> rank_count(s, i) >= 1,
        m == 13 || rank_count(s, m) == 0,
    ensures
        run_len_from(s, r) == m - r,
    decreases m - r,
{
    if r < m {
        lemma_run_len_eq(s, r + 1, m);
    }
}

/// Extending a product window by one rank multiplies in that rank's count.
pub proof fn lemma_run_product_extend(s: Seq<Card>, r: int, j: int)
    requires
        0 <= j,
    ensures
        run_product(s, r, j + 1) == run_product(s, r, j) * rank_count(s, r + j),
    decreases j,
{
    if j == 0 {
        assert(run_product(s, r + 1, 0) == 1);
        assert(run_product(s, r, 0) == 1);
    } else {
        lemma_run_product_extend(s, r + 1, j - 1);
        let c = rank_count(s, r);
        let p = run_product(s, r + 1, j - 1);
        let k = rank_count(s, r + j);
        assert(run_product(s, r, j + 1) == c * (p * k));
        assert(run_product(s, r, j) == c * p);
        assert(c * (p * k) == (c * p) * k) by (nonlinear_arith);
    }
}

/// A positive count is at most two to the power one less than itself.
proof fn lemma_count_le_pow2(c: int)
    requires
        1 <= c,
    ensures
        c <= pow2i((c - 1) as nat),
    decreases c,
{
    if c > 1 {
        lemma_count_le_pow2(c - 1);
        lemma_pow2i_pos((c - 2) as nat);
    }
}

/// The product of the multiplicities over a run window is at least one and
/// at most two to the power of the spare cards in the window (the window's
/// card total minus its length).
pub proof fn lemma_run_product_bound(s: Seq<Card>, r: int, j: int)
    requires
        0 <= j,
        forall|i: int| r <= i < r + j ==> rank_count(s, i) >= 1,
    ensures
        1 <= run_product(s, r, j),
        run_product(s, r, j) <= pow2i((rank_count_sum(s, r, j) - j) as nat),
        j <= rank_count_sum(s, r, j),
    decreases j,
{
    if j == 0 {
    } else {
        assert(rank_count(s, r) >= 1);
        lemma_run_product_bound(s, r + 1, j - 1);
        let c = rank_count(s, r);
        let p = run_product(s, r + 1, j - 1);
        let m = rank_count_sum(s, r + 1, j - 1);
        lemma_count_le_pow2(c);
        lemma_pow2i_pos((c - 1) as nat);
        lemma_pow2i_pos((m - (j - 1)) as nat);
        assert(c * p >= 1) by (nonlinear_arith)
            requires
                c >= 1,
                p >= 1,
        ;
        assert(c * p <= pow2i((c - 1) as nat) * pow2i((m - (j - 1)) as nat)) by (nonlinear_arith)
            requires
                1 <= c,
                1 <= p,
                c <= pow2i((c - 1) as nat),
                p <= pow2i((m - (j - 1)) as nat),
        ;
        lemma_pow2i_adds((c - 1) as nat, (m - (j - 1)) as nat);
        assert(rank_count_sum(s, r, j) - j == (c - 1) + (m - (j - 1)));
    }
}

pub proof fn lemma_pow2i_adds(a: nat, b: nat)
    ensures
        pow2i(a) * pow2i(b) == pow2i(a + b),
    decreases a,
{
    if a == 0 {
    } else {
        lemma_pow2i_adds((a - 1) as nat, b);
        assert(2 * pow2i((a - 1) as nat) * pow2i(b) == 2 * (pow2i((a - 1) as nat) * pow2i(b)))
            by (nonlinear_arith);
    }
}

/// A run needs three cards: where fewer than three cards remain over the
/// ranks from `r` up, no run can score.
pub proof fn lemma_run_points_from_zero(s: Seq<Card>, r: int)
    requires
        0 <= r <= 13,
        rank_count_sum(s, r, 13 - r) <= 2,
    ensures
        run_points_from(s, r) == 0,
    decreases 13 - r,
{
    if r >= 13 {
    } else if rank_count(s, r) == 0 {
        lemma_rank_count_sum_split(s, r, 1, 13 - r - 1);
        assert(rank_count_sum(s, r + 1, 0) == 0);
        assert(rank_count_sum(s, r, 1) == rank_count(s, r));
        lemma_run_points_from_zero(s, r + 1);
    } else {
        let l = run_len_from(s, r);
        lemma_run_len_from_bounds(s, r);
        lemma_run_len_from_bounds(s, r + 1);
        assert(l >= 1);
        assert forall|i: int| r <= i < r + l implies rank_count(s, i) >= 1 by {
            lemma_run_ranks_present(s, r, i - r);
        }
        lemma_run_product_bound(s, r, l);
        lemma_rank_count_sum_split(s, r, l, 13 - r - l);
        lemma_rank_count_sum_nonneg(s, r + l, 13 - r - l);
        assert(l <= rank_count_sum(s, r, l) <= 2);
        lemma_run_points_from_zero(s, r + l);
    }
}

/// With at most five cards, the run score lies between 0 and 20: the run's
/// length is at most five and the multiplicity product at most four, and no
/// second run can score.
pub proof fn lemma_run_points_bound(s: Seq<Card>, r: int)
    requires
        0 <= r <= 13,
        s.len() <= 5,
    ensures
        0 <= run_points_from(s, r) <= 20,
    decreases 13 - r,
{
    if r >= 13 {
    } else if rank_count(s, r) == 0 {
        lemma_run_points_bound(s, r + 1);
    } else {
        let l = run_len_from(s, r);
        lemma_run_len_from_bounds(s, r);
        lemma_run_len_from_bounds(s, r + 1);
        assert(l >= 1);
        assert forall|i: int| r <= i < r + l implies rank_count(s, i) >= 1 by {
            lemma_run_ranks_present(s, r, i - r);
        }
        lemma_run_product_bound(s, r, l);
        lemma_rank_window_le_len(s, r, l);
        let prod = run_product(s, r, l);
        let sb = rank_count_sum(s, r, l);
        if l >= 3 {
            assert(pow2i(0) == 1);
            assert(pow2i(1) == 2);
            assert(pow2i(2) == 4);
            lemma_pow2i_mono((sb - l) as nat, 2);
            assert(1 <= prod <= 4);
            assert(3 <= l <= 5);
            assert(3 <= l * prod <= 20) by (nonlinear_arith)
                requires
                    1 <= prod <= 4,
                    3 <= l <= 5,
            ;
            lemma_rank_window_le_len(s, r, 13 - r);
            lemma_rank_count_sum_split(s, r, l, 13 - r - l);
            assert(rank_count_sum(s, r + l, 13 - r - l) <= 2);
            lemma_run_points_from_zero(s, r + l);
        } else {
            lemma_run_points_bound(s, r + l);
        }
    }
}

/// How many subsets of the first `n` of the five cards have face values
/// summing to `target`.
fn count_fifteens(cards5: &[Card; 5], n: usize, target: u8) -> (c: u8)
    requires
        n <= 5,
        target <= 15,
    ensures
        c == fifteen_count(cards5@.take(n as int), target as int),
        c <= 32,
    decreases n,
{
    proof {
        lemma_fifteen_count_bound(cards5@.take(n as int), target as int);
        assert(pow2i(0) == 1);
        assert(pow2i(1) == 2);
        assert(pow2i(2) == 4);
        assert(pow2i(3) == 8);
        assert(pow2i(4) == 16);
        assert(pow2i(5) == 32);
        lemma_pow2i_mono(n as nat, 5);
    }
    if n == 0 {
        if target == 0 {
            1
        } else {
            0
        }
    } else {
        proof {
            assert(cards5@.take(n as int).drop_last() =~= cards5@.take(n as int - 1));
            assert(cards5@.take(n as int).last() == cards5@[n as int - 1]);
        }
        let without = count_fifteens(cards5, n - 1, target);
        let v = cards5[n - 1].value();
        let with_card = if v <= target {
            count_fifteens(cards5, n - 1, target - v)
        } else {
            proof {
                lemma_fifteen_count_neg(cards5@.take(n as int - 1), target - v);
            }
            0
        };
        without + with_card
    }
}

impl Hand {
    /// The point value of this hand with the given starter, in a crib or not:
    /// flush, fifteens, pairs, runs and the nob, summed.
    pub fn score(&self, starter: Card, crib: bool) -> (r: u8)
        ensures
            r == spec_score(*self, starter, crib),
    {
        let cards5: [Card; 5] = [
            self.cards[0],
            self.cards[1],
            self.cards[2],
            self.cards[3],
            starter,
        ];
        proof {
            assert(cards5@ =~= five_cards(*self, starter));
        }
        let suit_pts = self.score_suit(starter, crib);
        let fifteen_pts = self.score_fifteens(&cards5);
        let pair_pts = self.score_pairs(&cards5);
        let run_pts = self.score_straights(&cards5);
        let knob_pts = self.score_knob(starter);
        suit_pts + fifteen_pts + pair_pts + run_pts + knob_pts
    }

    /// Flush points of the hand and starter.
    fn score_suit(&self, starter: Card, crib: bool) -> (r: u8)
        ensures
            r == flush_points(*self, starter, crib),
            r <= 5,
    {
        let same_suit = self.cards[1].suit == self.cards[0].suit && self.cards[2].suit
            == self.cards[0].suit && self.cards[3].suit == self.cards[0].suit;
        if same_suit {
            if self.cards[0].suit == starter.suit {
                5
            } else if !crib {
                4
            } else {
                0
            }
        } else {
            0
        }
    }

    /// Fifteens points over the five-card combination.
    fn score_fifteens(&self, cards5: &[Card; 5]) -> (r: u8)
        ensures
            r == fifteen_points(cards5@),
            r <= 64,
    {
        proof {
            assert(cards5@.take(5) =~= cards5@);
        }
        let c = count_fifteens(cards5, 5, 15);
        2 * c
    }

    /// Pair points over the five-card combination.
    fn score_pairs(&self, cards5: &[Card; 5]) -> (r: u8)
        ensures
            r == pair_points(cards5@),
            r <= 20,
    {
        let mut pairs: u8 = 0;
        for i in 0..5usize
            invariant
                pairs == pair_count(cards5@.take(i as int)),
                pairs <= 10,
        {
            let mut cnt: u8 = 0;
            for j in 0..i
                invariant
                    i < 5,
                    cnt == matches_in(cards5@.take(j as int), cards5@[i as int].number),
                    cnt <= j,
            {
                proof {
                    assert(cards5@.take(j as int + 1).drop_last() =~= cards5@.take(j as int));
                    assert(cards5@.take(j as int + 1).last() == cards5@[j as int]);
                }
                if cards5[j].number == cards5[i].number {
                    cnt += 1;
                }
            }
            proof {
                assert(cards5@.take(i as int + 1).drop_last() =~= cards5@.take(i as int));
                assert(cards5@.take(i as int + 1).last() == cards5@[i as int]);
                lemma_pair_count_bound(cards5@.take(i as int + 1));
                let n = i as int + 1;
                assert(n * (n - 1) <= 20) by (nonlinear_arith)
                    requires
                        0 <= n <= 5,
                ;
            }
            pairs += cnt;
        }
        proof {
            assert(cards5@.take(5) =~= cards5@);
            lemma_pair_count_bound(cards5@);
        }
        2 * pairs
    }

    /// Run points over the five-card combination: find each maximal stretch
    /// of consecutive present ranks and score those of length three or more.
    fn score_straights(&self, cards5: &[Card; 5]) -> (r: u8)
        ensures
            r == run_points(cards5@),
            r <= 20,
    {
        let mut counts: Vec<u8> = Vec::new();
        for rk in 0..13usize
            invariant
                counts@.len() == rk,
                forall|q: int| 0 <= q < rk ==> counts@[q] == rank_count(cards5@, q),
        {
            let mut c: u8 = 0;
            for i in 0..5usize
                invariant
                    rk < 13,
                    c == rank_count(cards5@.take(i as int), rk as int),
                    c <= i,
            {
                proof {
                    assert(cards5@.take(i as int + 1).drop_last() =~= cards5@.take(i as int));
                    assert(cards5@.take(i as int + 1).last() == cards5@[i as int]);
                }
                if cards5[i].number.rank_index() as usize == rk {
                    c += 1;
                }
            }
            proof {
                assert(cards5@.take(5) =~= cards5@);
            }
            counts.push(c);
        }
        proof {
            lemma_run_points_bound(cards5@, 0);
        }
        let mut total: u8 = 0;
        let mut rk: usize = 0;
        while rk < 13
            invariant
                rk <= 13,
                counts@.len() == 13,
                forall|q: int| 0 <= q < 13 ==> counts@[q] == rank_count(cards5@, q),
                total + run_points_from(cards5@, rk as int) == run_points(cards5@),
                total <= 20,
            decreases 13 - rk,
        {
            proof {
                lemma_run_points_bound(cards5@, rk as int);
            }
            if counts[rk] == 0 {
                proof {
                    lemma_run_points_bound(cards5@, rk as int + 1);
                }
                rk += 1;
            } else {
                let ghost s = cards5@;
                let mut l: usize = 0;
                while rk + l < 13 && counts[rk + l] > 0
                    invariant
                        rk < 13,
                        rk + l <= 13,
                        counts@.len() == 13,
                        forall|q: int| 0 <= q < 13 ==> counts@[q] == rank_count(cards5@, q),
                        forall|q: int| rk <= q < rk + l ==> rank_count(cards5@, q) >= 1,
                    decreases 13 - rk - l,
                {
                    l += 1;
                }
                proof {
                    lemma_run_len_eq(s, rk as int, rk as int + l as int);
                    lemma_run_len_from_bounds(s, rk as int + 1);
                    assert(run_len_from(s, rk as int) == l);
                    assert(l >= 1);
                    lemma_run_product_bound(s, rk as int, l as int);
                    lemma_rank_window_le_len(s, rk as int, l as int);
                    assert(l <= 5);
                }
                let mut contribution: u8 = 0;
                if l >= 3 {
                    let mut prod: u8 = 1;
                    for j in 0..l
                        invariant
                            rk < 13,
                            rk + l <= 13,
                            l <= 5,
                            j <= l,
                            counts@.len() == 13,
                            forall|q: int| 0 <= q < 13 ==> counts@[q] == rank_count(cards5@, q),
                            forall|q: int| rk <= q < rk + l ==> rank_count(cards5@, q) >= 1,
                            s == cards5@,
                            prod == run_product(s, rk as int, j as int),
                            prod <= 32,
                    {
                        proof {
                            lemma_run_product_extend(s, rk as int, j as int);
                            lemma_run_product_bound(s, rk as int, j as int + 1);
                            lemma_rank_window_le_len(s, rk as int, j as int + 1);
                            assert(pow2i(0) == 1);
                            assert(pow2i(1) == 2);
                            assert(pow2i(2) == 4);
                            assert(pow2i(3) == 8);
                            assert(pow2i(4) == 16);
                            assert(pow2i(5) == 32);
                            let sb = rank_count_sum(s, rk as int, j as int + 1);
                            lemma_rank_count_sum_nonneg(s, rk as int, j as int + 1);
                            lemma_pow2i_mono((sb - (j as int + 1)) as nat, 5);
                            lemma_rank_count_bound(s, rk as int + j as int);
                        }
                        prod = prod * counts[rk + j];
                    }
                    proof {
                        lemma_run_product_bound(s, rk as int, l as int);
                        lemma_rank_window_le_len(s, rk as int, l as int);
                        assert(pow2i(0) == 1);
                        assert(pow2i(1) == 2);
                        assert(pow2i(2) == 4);
                        let sb = rank_count_sum(s, rk as int, l as int);
                        lemma_pow2i_mono((sb - l as int) as nat, 2);
                        assert(prod <= 4);
                        assert((l as int) * (prod as int) <= 20) by (nonlinear_arith)
                            requires
                                0 <= l <= 5,
                                0 <= prod <= 4,
                        ;
                    }
                    contribution = (l as u8) * prod;
                }
                proof {
                    assert(run_points_from(s, rk as int) == (if l >= 3 {
                        (l as int) * run_product(s, rk as int, l as int)
                    } else {
                        0int
                    }) + run_points_from(s, rk as int + l as int));
                    if l >= 3 {
                        assert(contribution == (l as int) * run_product(s, rk as int, l as int));
                    }
                    lemma_run_points_bound(cards5@, 0);
                    lemma_run_points_bound(cards5@, rk as int + l as int);
                }
                total += contribution;
                rk += l;
            }
        }
        total
    }

    /// One point when the hand holds the jack of the starter's suit.
    pub fn score_knob(&self, starter: Card) -> (r: u8)
        ensures
            r == knob_points(*self, starter),
            r <= 1,
    {
        let knob = Card::new(Number::J, starter.suit);
        let mut found = false;
        for i in 0..4usize
            invariant
                found == exists|k: int| 0 <= k < i && #[trigger] self.cards@[k] == knob,
        {
            if self.cards[i] == knob {
                found = true;
            }
        }
        if found {
            1
        } else {
            0
        }
    }
}

} // verus!
