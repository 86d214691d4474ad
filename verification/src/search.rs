//! The discard search: every four-card keep from a dealt set, scored against
//! every remaining starter, ranked by total score.

use vstd::multiset::Multiset;
use vstd::prelude::*;

use itertools::Itertools;

use crate::cards::{card_le, Card, Hand};
use crate::deck::Deck;
use crate::score::spec_score;

verus! {

/// The scores of one candidate hand against each starter, as recorded.
pub open spec fn total_of(s: Seq<(Card, u8)>) -> int
    decreases s.len(),
{
    if s.len() == 0 {
        0
    } else {
        total_of(s.drop_last()) + s.last().1
    }
}

pub proof fn lemma_total_of_bound(s: Seq<(Card, u8)>)
    ensures
        0 <= total_of(s) <= 255 * s.len(),
    decreases s.len(),
{
    if s.len() > 0 {
        lemma_total_of_bound(s.drop_last());
    }
}

/// Whether the entries are ordered by descending score.
pub open spec fn entries_sorted_desc(s: Seq<(Card, u8)>) -> bool {
    forall|a: int, b: int| 0 <= a <= b < s.len() ==> (#[trigger] s[a]).1 >= (#[trigger] s[b]).1
}

/// Whether the cards are in ascending card order.
pub open spec fn cards_sorted(s: Seq<Card>) -> bool {
    forall|a: int, b: int| 0 <= a <= b < s.len() ==> card_le(#[trigger] s[a], #[trigger] s[b])
}

/// The per-starter scores of one candidate hand: one `(starter, score)` entry
/// for every remaining deck card.
pub struct Scores {
    entries: Vec<(Card, u8)>,
}

impl View for Scores {
    type V = Seq<(Card, u8)>;

    closed spec fn view(&self) -> Seq<(Card, u8)> {
        self.entries@
    }
}

impl Scores {
    /// An empty record.
    pub fn new() -> (r: Self)
        ensures
            r@ == Seq::<(Card, u8)>::empty(),
    {
        Scores { entries: Vec::new() }
    }

    /// Record the score one starter gives.
    pub fn push(&mut self, card: Card, score: u8)
        ensures
            final(self)@ == old(self)@.push((card, score)),
    {
        self.entries.push((card, score));
    }

    /// How many starters are recorded.
    pub fn len(&self) -> (r: usize)
        ensures
            r == self@.len(),
    {
        self.entries.len()
    }

    /// The recorded entries, in their current order.
    pub fn iter(&self) -> (r: &Vec<(Card, u8)>)
        ensures
            r@ == self@,
    {
        &self.entries
    }

    /// The sum of all recorded scores. The mean score is this total over
    /// `len()`; comparing totals ranks hands exactly as comparing means does,
    /// since every candidate hand sees the same starters.
    pub fn total(&self) -> (r: u32)
        requires
            self@.len() <= 0x100_0000,
        ensures
            r == total_of(self@),
    {
        let n = self.entries.len();
        let mut sum: u32 = 0;
        for i in 0..n
            invariant
                n == self@.len() <= 0x100_0000,
                sum == total_of(self@.take(i as int)),
                sum <= 255 * i,
        {
            proof {
                assert(self@.take(i as int + 1).drop_last() =~= self@.take(i as int));
                assert(self@.take(i as int + 1).last() == self@[i as int]);
            }
            sum = sum + self.entries[i].1 as u32;
        }
        proof {
            assert(self@.take(n as int) =~= self@);
        }
        sum
    }

    /// Reorder the entries by descending score. The recorded entries stay
    /// the same ones.
    pub fn sort(&mut self)
        ensures
            final(self)@.to_multiset() == old(self)@.to_multiset(),
            final(self)@.len() == old(self)@.len(),
            entries_sorted_desc(final(self)@),
    {
        sort_entries(&mut self.entries);
    }
}

/// Insertion sort of score entries by descending score.
fn sort_entries(v: &mut Vec<(Card, u8)>)
    ensures
        final(v)@.to_multiset() == old(v)@.to_multiset(),
        final(v)@.len() == old(v)@.len(),
        entries_sorted_desc(final(v)@),
{
    let mut out: Vec<(Card, u8)> = Vec::new();
    proof {
        broadcast use vstd::seq_lib::group_to_multiset_ensures;

        assert(out@.to_multiset() =~= Seq::<(Card, u8)>::empty().to_multiset());
    }
    while v.len() > 0
        invariant
            out@.to_multiset().add(v@.to_multiset()) == old(v)@.to_multiset(),
            out@.len() + v@.len() == old(v)@.len(),
            entries_sorted_desc(out@),
        decreases v@.len(),
    {
        let ghost vpre = v@;
        let x = v.pop().unwrap();
        let mut p: usize = 0;
        while p < out.len() && out[p].1 >= x.1
            invariant
                p <= out@.len(),
                forall|q: int| 0 <= q < p ==> (#[trigger] out@[q]).1 >= x.1,
            decreases out@.len() - p,
        {
            p += 1;
        }
        proof {
            broadcast use vstd::seq_lib::group_to_multiset_ensures;

            assert(vpre =~= v@.push(x));
        }
        out.insert(p, x);
    }
    proof {
        broadcast use vstd::seq_lib::group_to_multiset_ensures;

        assert(v@.to_multiset() =~= Multiset::<(Card, u8)>::empty());
        assert(out@.to_multiset().add(Multiset::<(Card, u8)>::empty()) =~= out@.to_multiset());
    }
    *v = out;
}

/// The entries grouped by equal score, each run of adjacent equal scores
/// becoming one group in order of appearance: the group's score, then its
/// cards in entry order.
pub open spec fn group_spec(s: Seq<(Card, u8)>) -> Seq<(u8, Seq<Card>)>
    decreases s.len(),
{
    if s.len() == 0 {
        Seq::empty()
    } else {
        let g = group_spec(s.drop_last());
        let e = s.last();
        if g.len() == 0 || g.last().0 != e.1 {
            g.push((e.1, seq![e.0]))
        } else {
            g.update(g.len() - 1, (g.last().0, g.last().1.push(e.0)))
        }
    }
}

impl Scores {
    /// The starters grouped by identical score, adjacent entries of one
    /// score forming one group; within a group the starters are listed in
    /// ascending card order. On sorted entries the groups carry strictly
    /// descending scores.
    pub fn grouped(&self) -> (r: Vec<(u8, Vec<Card>)>)
        ensures
            r@.len() == group_spec(self@).len(),
            forall|g: int|
                0 <= g < r@.len() ==> (#[trigger] r@[g]).0 == group_spec(self@)[g].0 && r@[
                    g
                ].1@.to_multiset() == group_spec(self@)[g].1.to_multiset() && cards_sorted(
                    r@[g].1@,
                ),
    {
        let entries = self.iter();
        let n = entries.len();
        let mut raw: Vec<(u8, Vec<Card>)> = Vec::new();
        for i in 0..n
            invariant
                n == self@.len(),
                entries@ == self@,
                raw@.len() == group_spec(self@.take(i as int)).len(),
                forall|g: int|
                    0 <= g < raw@.len() ==> (#[trigger] raw@[g]).0 == group_spec(
                        self@.take(i as int),
                    )[g].0 && raw@[g].1@ == group_spec(self@.take(i as int))[g].1,
        {
            proof {
                assert(self@.take(i as int + 1).drop_last() =~= self@.take(i as int));
                assert(self@.take(i as int + 1).last() == self@[i as int]);
            }
            let (card, score) = entries[i];
            let m = raw.len();
            if m > 0 && raw[m - 1].0 == score {
                let mut grp = raw.pop().unwrap();
                grp.1.push(card);
                raw.push(grp);
                proof {
                    let spec_now = group_spec(self@.take(i as int + 1));
                    let spec_pre = group_spec(self@.take(i as int));
                    assert(raw@ =~= raw@);
                    assert(spec_now == spec_pre.update(
                        spec_pre.len() - 1,
                        (spec_pre.last().0, spec_pre.last().1.push(card)),
                    ));
                }
            } else {
                let mut cs: Vec<Card> = Vec::new();
                cs.push(card);
                raw.push((score, cs));
            }
        }
        proof {
            assert(self@.take(n as int) =~= self@);
        }
        let mut out: Vec<(u8, Vec<Card>)> = Vec::new();
        let m = raw.len();
        for g in 0..m
            invariant
                m == raw@.len(),
                raw@.len() == group_spec(self@).len(),
                forall|q: int|
                    0 <= q < raw@.len() ==> (#[trigger] raw@[q]).0 == group_spec(self@)[q].0 && raw@[
                        q
                    ].1@ == group_spec(self@)[q].1,
                out@.len() == g,
                forall|q: int|
                    0 <= q < g ==> (#[trigger] out@[q]).0 == group_spec(self@)[q].0 && out@[
                        q
                    ].1@.to_multiset() == group_spec(self@)[q].1.to_multiset() && cards_sorted(
                        out@[q].1@,
                    ),
        {
            let len_g = raw[g].1.len();
            let mut cs: Vec<Card> = Vec::new();
            for j in 0..len_g
                invariant
                    m == raw@.len(),
                    g < m,
                    len_g == raw@[g as int].1@.len(),
                    cs@ == raw@[g as int].1@.take(j as int),
            {
                proof {
                    assert(raw@[g as int].1@.take(j as int + 1) =~= raw@[g as int].1@.take(
                        j as int,
                    ).push(raw@[g as int].1@[j as int]));
                }
                cs.push(raw[g].1[j]);
            }
            proof {
                assert(raw@[g as int].1@.take(len_g as int) =~= raw@[g as int].1@);
            }
            sort_cards(&mut cs);
            out.push((raw[g].0, cs));
        }
        out
    }
}

/// Put a list of cards in ascending card order. The cards stay the same.
pub fn sort_cards(v: &mut Vec<Card>)
    ensures
        final(v)@.to_multiset() == old(v)@.to_multiset(),
        final(v)@.len() == old(v)@.len(),
        cards_sorted(final(v)@),
{
    let mut out: Vec<Card> = Vec::new();
    proof {
        broadcast use vstd::seq_lib::group_to_multiset_ensures;

        assert(out@.to_multiset() =~= Seq::<Card>::empty().to_multiset());
    }
    while v.len() > 0
        invariant
            out@.to_multiset().add(v@.to_multiset()) == old(v)@.to_multiset(),
            out@.len() + v@.len() == old(v)@.len(),
            cards_sorted(out@),
        decreases v@.len(),
    {
        let ghost vpre = v@;
        let x = v.pop().unwrap();
        let mut p: usize = 0;
        while p < out.len() && out[p].le(&x)
            invariant
                p <= out@.len(),
                forall|q: int| 0 <= q < p ==> card_le(#[trigger] out@[q], x),
            decreases out@.len() - p,
        {
            p += 1;
        }
        proof {
            broadcast use vstd::seq_lib::group_to_multiset_ensures;

            assert(vpre =~= v@.push(x));
            assert(forall|a: Card, b: Card| !card_le(a, b) ==> card_le(b, a));
        }
        out.insert(p, x);
    }
    proof {
        broadcast use vstd::seq_lib::group_to_multiset_ensures;

        assert(v@.to_multiset() =~= Multiset::<Card>::empty());
        assert(out@.to_multiset().add(Multiset::<Card>::empty()) =~= out@.to_multiset());
    }
    *v = out;
}

/// All `k`-card combinations of `s`, keeping card order within each
/// combination, the combinations ordered by their positions in `s`: first
/// every combination holding the first card, then those without it.
pub open spec fn combos(s: Seq<Card>, k: nat) -> Seq<Seq<Card>>
    decreases s.len(),
{
    if k == 0 {
        seq![Seq::<Card>::empty()]
    } else if s.len() < k {
        Seq::<Seq<Card>>::empty()
    } else {
        combos(s.drop_first(), (k - 1) as nat).map_values(|c: Seq<Card>| seq![s.first()] + c)
            + combos(s.drop_first(), k)
    }
}

/// The binomial coefficient: how many `k`-element choices an `n`-element
/// sequence offers.
pub open spec fn binom(n: int, k: int) -> int
    decreases n,
{
    if k < 0 {
        0
    } else if k == 0 {
        1
    } else if n < k {
        0
    } else {
        binom(n - 1, k - 1) + binom(n - 1, k)
    }
}

/// There are exactly `binom(n, k)` combinations of `k` cards out of `n`.
pub proof fn lemma_combos_len(s: Seq<Card>, k: nat)
    ensures
        combos(s, k).len() == binom(s.len() as int, k as int),
    decreases s.len(),
{
    if k == 0 {
    } else if s.len() < k {
    } else {
        lemma_combos_len(s.drop_first(), (k - 1) as nat);
        lemma_combos_len(s.drop_first(), k);
    }
}

/// Relies on itertools' `array_combinations`: it yields every four-element
/// combination of the iterated cards, each keeping the input order, the
/// combinations in lexicographic order of their positions in the input.
#[verifier::external_body]
fn combinations4(cards: &Vec<Card>) -> (r: Vec<[Card; 4]>)
    ensures
        r@.len() == combos(cards@, 4).len(),
        forall|i: int| 0 <= i < r@.len() ==> (#[trigger] r@[i])@ == combos(cards@, 4)[i],
{
    cards.iter().copied().array_combinations::<4>().collect()
}

/// The score record a hand gets against a deck, entry by entry: each deck
/// card with the score it gives as a starter, outside a crib.
pub open spec fn starter_entries(h: Hand, d: Seq<Card>) -> Seq<(Card, u8)> {
    Seq::new(d.len(), |i: int| (d[i], spec_score(h, d[i], false) as u8))
}

/// Score the hand against every card of the deck as a starter.
pub fn score_starters(hand: &Hand, deck: &Deck) -> (r: Scores)
    ensures
        r@ == starter_entries(*hand, deck@),
{
    let cards = deck.cards();
    let n = cards.len();
    let mut scores = Scores::new();
    proof {
        assert(scores@ =~= starter_entries(*hand, deck@).take(0));
    }
    for i in 0..n
        invariant
            n == deck@.len(),
            cards@ == deck@,
            scores@ == starter_entries(*hand, deck@).take(i as int),
    {
        let starter = cards[i];
        let sc = hand.score(starter, false);
        scores.push(starter, sc);
        proof {
            assert(starter_entries(*hand, deck@).take(i as int + 1) =~= starter_entries(
                *hand,
                deck@,
            ).take(i as int).push((starter, sc)));
        }
    }
    proof {
        assert(starter_entries(*hand, deck@).take(n as int) =~= starter_entries(*hand, deck@));
    }
    scores
}

/// What one ranked result must be: the recorded entries are exactly the
/// hand's scores against the deck, in some order of descending score.
pub open spec fn entry_wf(e: (Hand, Scores), d: Seq<Card>) -> bool {
    &&& e.1@.to_multiset() == starter_entries(e.0, d).to_multiset()
    &&& e.1@.len() == d.len()
    &&& entries_sorted_desc(e.1@)
}

/// The hands of the results, each as its card sequence.
pub open spec fn result_hands(r: Seq<(Hand, Scores)>) -> Seq<Seq<Card>> {
    r.map_values(|e: (Hand, Scores)| e.0@)
}

/// Whether every four-card combination of the dealt cards appears as the
/// hand of some result.
pub open spec fn covers(r: Seq<(Hand, Scores)>, cs: Seq<Card>) -> bool {
    forall|i: int|
        #![trigger combos(cs, 4)[i]]
        0 <= i < combos(cs, 4).len() ==> result_hands(r).contains(combos(cs, 4)[i])
}

/// Whether the results are ordered by descending total score.
pub open spec fn results_sorted(s: Seq<(Hand, Scores)>) -> bool {
    forall|a: int, b: int|
        0 <= a <= b < s.len() ==> total_of((#[trigger] s[a]).1@) >= total_of((#[trigger] s[b]).1@)
}

/// Insertion sort of ranked results by descending total score.
fn sort_results(v: &mut Vec<(Hand, Scores)>)
    requires
        forall|k: int| 0 <= k < old(v)@.len() ==> (#[trigger] old(v)@[k]).1@.len() <= 0x100_0000,
    ensures
        final(v)@.to_multiset() == old(v)@.to_multiset(),
        final(v)@.len() == old(v)@.len(),
        results_sorted(final(v)@),
{
    let mut out: Vec<(Hand, Scores)> = Vec::new();
    proof {
        broadcast use vstd::seq_lib::group_to_multiset_ensures;

        assert(out@.to_multiset() =~= Seq::<(Hand, Scores)>::empty().to_multiset());
    }
    while v.len() > 0
        invariant
            out@.to_multiset().add(v@.to_multiset()) == old(v)@.to_multiset(),
            out@.len() + v@.len() == old(v)@.len(),
            results_sorted(out@),
            forall|k: int| 0 <= k < v@.len() ==> (#[trigger] v@[k]).1@.len() <= 0x100_0000,
            forall|k: int| 0 <= k < out@.len() ==> (#[trigger] out@[k]).1@.len() <= 0x100_0000,
        decreases v@.len(),
    {
        let ghost vpre = v@;
        let x = v.pop().unwrap();
        let key = x.1.total();
        let mut p: usize = 0;
        while p < out.len() && out[p].1.total() >= key
            invariant
                p <= out@.len(),
                key == total_of(x.1@),
                forall|k: int| 0 <= k < out@.len() ==> (#[trigger] out@[k]).1@.len() <= 0x100_0000,
                forall|q: int| 0 <= q < p ==> total_of((#[trigger] out@[q]).1@) >= key,
            decreases out@.len() - p,
        {
            p += 1;
        }
        proof {
            broadcast use vstd::seq_lib::group_to_multiset_ensures;

            assert(vpre =~= v@.push(x));
        }
        out.insert(p, x);
    }
    proof {
        broadcast use vstd::seq_lib::group_to_multiset_ensures;

        assert(v@.to_multiset() =~= Multiset::<(Hand, Scores)>::empty());
        assert(out@.to_multiset().add(Multiset::<(Hand, Scores)>::empty()) =~= out@.to_multiset());
    }
    *v = out;
}

/// Rank every four-card keep from the dealt cards: score each against every
/// remaining deck card, then order the candidates by descending total score.
/// Every four-card combination appears among the results.
pub fn best_hands(cards: &Vec<Card>, deck: &Deck) -> (r: Vec<(Hand, Scores)>)
    requires
        deck@.len() <= 0x100_0000,
    ensures
        r@.len() == binom(cards@.len() as int, 4),
        forall|k: int| 0 <= k < r@.len() ==> entry_wf(#[trigger] r@[k], deck@),
        covers(r@, cards@),
        results_sorted(r@),
{
    proof {
        lemma_combos_len(cards@, 4);
    }
    let hand_sets = combinations4(cards);
    let n = hand_sets.len();
    let mut results: Vec<(Hand, Scores)> = Vec::new();
    for ci in 0..n
        invariant
            n == combos(cards@, 4).len(),
            n == hand_sets@.len(),
            forall|i: int| 0 <= i < n ==> (#[trigger] hand_sets@[i])@ == combos(cards@, 4)[i],
            deck@.len() <= 0x100_0000,
            results@.len() == ci,
            forall|k: int|
                0 <= k < ci ==> entry_wf(#[trigger] results@[k], deck@) && results@[k].0@ == combos(
                    cards@,
                    4,
                )[k],
    {
        let hand = Hand::from_array(hand_sets[ci]);
        let mut scores = score_starters(&hand, deck);
        scores.sort();
        results.push((hand, scores));
    }
    let ghost pre = results@;
    sort_results(&mut results);
    proof {
        broadcast use vstd::seq_lib::group_to_multiset_ensures;

        assert forall|k: int| 0 <= k < results@.len() implies entry_wf(
            #[trigger] results@[k],
            deck@,
        ) by {
            assert(results@.contains(results@[k]));
            assert(pre.to_multiset().count(results@[k]) > 0);
            assert(pre.contains(results@[k]));
            let j = choose|j: int| 0 <= j < pre.len() && pre[j] == results@[k];
            assert(entry_wf(pre[j], deck@));
        }
        assert forall|i: int|
            #![trigger combos(cards@, 4)[i]]
            0 <= i < combos(cards@, 4).len() implies result_hands(results@).contains(
            combos(cards@, 4)[i],
        ) by {
            assert(pre.contains(pre[i]));
            assert(results@.to_multiset().count(pre[i]) > 0);
            assert(results@.contains(pre[i]));
            let k = choose|k: int| 0 <= k < results@.len() && results@[k] == pre[i];
            assert(result_hands(results@)[k] == results@[k].0@);
            assert(result_hands(results@)[k] == combos(cards@, 4)[i]);
            assert(result_hands(results@).contains(combos(cards@, 4)[i]));
        }
        assert(covers(results@, cards@));
        lemma_combos_len(cards@, 4);
    }
    results
}

} // verus!
