//! The deck: the 52-card pack minus the cards already out.

use vstd::prelude::*;

use rand::seq::SliceRandom;

use crate::cards::{rank_of, suit_order, Card, Hand, Number, Suit};
use crate::errors::CribleError;

verus! {

/// The suit at a position of the pack construction order.
pub open spec fn suit_at(i: int) -> Suit {
    if i == 0 {
        Suit::H
    } else if i == 1 {
        Suit::D
    } else if i == 2 {
        Suit::S
    } else {
        Suit::C
    }
}

/// The number at a position of the pack construction order.
pub open spec fn number_at(i: int) -> Number {
    if i == 0 {
        Number::A
    } else if i == 1 {
        Number::C2
    } else if i == 2 {
        Number::C3
    } else if i == 3 {
        Number::C4
    } else if i == 4 {
        Number::C5
    } else if i == 5 {
        Number::C6
    } else if i == 6 {
        Number::C7
    } else if i == 7 {
        Number::C8
    } else if i == 8 {
        Number::C9
    } else if i == 9 {
        Number::T
    } else if i == 10 {
        Number::J
    } else if i == 11 {
        Number::Q
    } else {
        Number::K
    }
}

/// The full 52-card pack: every suit and number combination exactly once,
/// the thirteen numbers of one suit before the next suit.
pub open spec fn full_pack() -> Seq<Card> {
    Seq::new(52, |i: int| Card { number: number_at(i % 13), suit: suit_at(i / 13) })
}

/// No card appears twice in the full pack.
pub proof fn lemma_full_pack_distinct()
    ensures
        full_pack().no_duplicates(),
{
    assert forall|i: int, j: int| 0 <= i < j < 52 implies full_pack()[i] != full_pack()[j] by {
        if full_pack()[i] == full_pack()[j] {
            assert(number_at(i % 13) == number_at(j % 13));
            assert(suit_at(i / 13) == suit_at(j / 13));
            assert(i % 13 == j % 13 && i / 13 == j / 13) by {
                assert(0 <= i % 13 < 13 && 0 <= j % 13 < 13);
                assert(0 <= i / 13 < 4 && 0 <= j / 13 < 4);
            }
            assert(i == (i / 13) * 13 + i % 13);
            assert(j == (j / 13) * 13 + j % 13);
        }
    }
}

/// A deck of cards, each held at most once.
pub struct Deck {
    cards: Vec<Card>,
}

impl View for Deck {
    type V = Seq<Card>;

    closed spec fn view(&self) -> Seq<Card> {
        self.cards@
    }
}

/// Relies on rand's `SliceRandom::shuffle` with `thread_rng`: a Fisher-Yates
/// shuffle permutes the slice in place by swaps, so afterwards the vector
/// holds the same cards in some order.
#[verifier::external_body]
fn shuffle_cards(cards: &mut Vec<Card>)
    ensures
        final(cards)@.to_multiset() == old(cards)@.to_multiset(),
{
    cards.shuffle(&mut rand::thread_rng());
}

/// Keeping a subsequence cannot raise any card's multiplicity.
proof fn lemma_filter_count_le(s: Seq<Card>, pred: spec_fn(Card) -> bool, x: Card)
    ensures
        s.filter(pred).to_multiset().count(x) <= s.to_multiset().count(x),
    decreases s.len(),
{
    reveal(Seq::filter);
    broadcast use vstd::seq_lib::group_to_multiset_ensures;

    if s.len() == 0 {
        assert(s.filter(pred) =~= s);
    } else {
        lemma_filter_count_le(s.drop_last(), pred, x);
        assert(s.drop_last().push(s.last()) =~= s);
        if pred(s.last()) {
            assert(s.filter(pred) == s.drop_last().filter(pred).push(s.last()));
        }
    }
}

/// Splitting a sequence by a predicate splits its length.
proof fn lemma_filter_complement_len(s: Seq<Card>, pred: spec_fn(Card) -> bool, co: spec_fn(
    Card,
) -> bool)
    requires
        forall|c: Card| #[trigger] co(c) == !pred(c),
    ensures
        s.filter(pred).len() + s.filter(co).len() == s.len(),
    decreases s.len(),
{
    reveal(Seq::filter);
    if s.len() > 0 {
        lemma_filter_complement_len(s.drop_last(), pred, co);
    }
}

impl Deck {
    /// Whether the deck is well formed: no card twice.
    pub open spec fn wf(self) -> bool {
        self@.no_duplicates()
    }

    /// A fresh 52-card deck in a random order.
    pub fn new_shuffled() -> (r: Self)
        ensures
            r@.to_multiset() == full_pack().to_multiset(),
            r@.len() == 52,
            r.wf(),
    {
        let suits = Suit::all();
        let numbers = Number::all();
        let mut cards: Vec<Card> = Vec::new();
        for si in 0..4usize
            invariant
                suits@ == seq![Suit::H, Suit::D, Suit::S, Suit::C],
                numbers@.len() == 13,
                forall|q: int| 0 <= q < 13 ==> rank_of(#[trigger] numbers@[q]) == q,
                cards@.len() == 13 * si,
                forall|k: int| 0 <= k < cards@.len() ==> cards@[k] == full_pack()[k],
        {
            for ni in 0..13usize
                invariant
                    si < 4,
                    suits@ == seq![Suit::H, Suit::D, Suit::S, Suit::C],
                    numbers@.len() == 13,
                    forall|q: int| 0 <= q < 13 ==> rank_of(#[trigger] numbers@[q]) == q,
                    cards@.len() == 13 * si + ni,
                    forall|k: int| 0 <= k < cards@.len() ==> cards@[k] == full_pack()[k],
            {
                let card = Card::new(numbers[ni], suits[si]);
                proof {
                    let k = 13 * (si as int) + ni;
                    assert(k % 13 == ni && k / 13 == si) by (nonlinear_arith)
                        requires
                            0 <= si < 4,
                            0 <= ni < 13,
                            k == 13 * (si as int) + ni,
                    ;
                    assert(rank_of(number_at(ni as int)) == ni);
                    crate::cards::lemma_rank_of_injective(numbers@[ni as int], number_at(ni as int));
                    assert(suits@[si as int] == suit_at(si as int));
                    assert(full_pack()[k] == card);
                }
                cards.push(card);
            }
        }
        proof {
            assert(cards@ =~= full_pack());
            lemma_full_pack_distinct();
        }
        let mut deck = Deck { cards };
        deck.shuffle();
        deck
    }

    /// Put the remaining cards in a new random order. The cards themselves
    /// do not change.
    pub fn shuffle(&mut self)
        ensures
            final(self)@.to_multiset() == old(self)@.to_multiset(),
            final(self)@.len() == old(self)@.len(),
            old(self).wf() ==> final(self).wf(),
    {
        shuffle_cards(&mut self.cards);
        proof {
            broadcast use vstd::seq_lib::group_to_multiset_ensures;

            assert(old(self)@.to_multiset().len() == old(self)@.len());
            assert(self@.to_multiset().len() == self@.len());
            if old(self).wf() {
                old(self)@.lemma_multiset_has_no_duplicates();
                self@.lemma_multiset_has_no_duplicates_conv();
            }
        }
    }

    /// The remaining cards, in their current order.
    pub fn cards(&self) -> (r: &Vec<Card>)
        ensures
            r@ == self@,
    {
        &self.cards
    }

    /// Take every card of `to_remove` out of the deck. A card not in the
    /// deck is ignored, as is a repeated mention of one.
    pub fn remove(&mut self, to_remove: &[Card])
        ensures
            final(self)@ == old(self)@.filter(|c: Card| !to_remove@.contains(c)),
            old(self).wf() ==> final(self).wf(),
    {
        let ghost pred = |c: Card| !to_remove@.contains(c);
        let n = self.cards.len();
        let mut kept: Vec<Card> = Vec::new();
        proof {
            reveal(Seq::filter);
            assert(self.cards@.take(0) =~= Seq::<Card>::empty());
            assert(kept@ =~= self.cards@.take(0).filter(pred));
        }
        for i in 0..n
            invariant
                n == self.cards@.len(),
                kept@ == self.cards@.take(i as int).filter(pred),
                pred == (|c: Card| !to_remove@.contains(c)),
            decreases n - i,
        {
            let c = self.cards[i];
            let mut hit = false;
            for j in 0..to_remove.len()
                invariant
                    hit == exists|q: int| 0 <= q < j && #[trigger] to_remove@[q] == c,
            {
                if to_remove[j] == c {
                    hit = true;
                }
            }
            proof {
                reveal(Seq::filter);
                assert(hit == to_remove@.contains(c));
                let t = self.cards@.take(i as int + 1);
                assert(t.drop_last() =~= self.cards@.take(i as int));
                assert(t.last() == c);
            }
            if !hit {
                kept.push(c);
            }
        }
        proof {
            assert(self.cards@.take(n as int) =~= self.cards@);
        }
        self.cards = kept;
        proof {
            if old(self).wf() {
                broadcast use vstd::seq_lib::group_to_multiset_ensures;

                old(self)@.lemma_multiset_has_no_duplicates();
                assert forall|x: Card| self@.to_multiset().contains(x) implies self@.to_multiset().count(
                    x,
                ) == 1 by {
                    lemma_filter_count_le(old(self)@, pred, x);
                }
                self@.lemma_multiset_has_no_duplicates_conv();
            }
        }
    }

    /// Draw the four cards at the top of the deck as a hand.
    pub fn draw_hand(&mut self) -> (r: Result<Hand, CribleError>)
        requires
            old(self)@.len() >= 4,
        ensures
            r matches Ok(h) && h@ == old(self)@.skip(old(self)@.len() - 4),
            final(self)@ == old(self)@.take(old(self)@.len() - 4),
            old(self).wf() ==> final(self).wf(),
    {
        let n = self.cards.len();
        let hand = Hand::from_array(
            [self.cards[n - 4], self.cards[n - 3], self.cards[n - 2], self.cards[n - 1]],
        );
        self.cards.truncate(n - 4);
        proof {
            assert(hand@ =~= old(self)@.skip(n as int - 4));
            assert(self@ =~= old(self)@.take(n as int - 4));
            if old(self).wf() {
                assert(self.wf()) by {
                    assert(forall|k: int|
                        0 <= k < self@.len() ==> self@[k] == old(self)@[k]);
                }
            }
        }
        Ok(hand)
    }

    /// Draw the top card. The deck must not be empty.
    pub fn draw(&mut self) -> (r: Card)
        requires
            old(self)@.len() > 0,
        ensures
            r == old(self)@.last(),
            final(self)@ == old(self)@.drop_last(),
            old(self).wf() ==> final(self).wf(),
    {
        let c = self.cards.pop().unwrap();
        proof {
            if old(self).wf() {
                assert(self.wf()) by {
                    assert(forall|k: int|
                        0 <= k < self@.len() ==> self@[k] == old(self)@[k]);
                }
            }
        }
        c
    }
}

/// What the deck loses under `remove`: every mentioned card is gone, and the
/// count drops by exactly the number of deck cards that were mentioned.
pub proof fn lemma_remove_effect(before: Seq<Card>, removed: Seq<Card>)
    ensures
        forall|c: Card|
            removed.contains(c) ==> !before.filter(
                |x: Card| !removed.contains(x),
            ).contains(c),
        before.filter(|x: Card| !removed.contains(x)).len() == before.len() - before.filter(
            |x: Card| removed.contains(x),
        ).len(),
{
    let pred = |x: Card| !removed.contains(x);
    let co = |x: Card| removed.contains(x);
    broadcast use vstd::seq_lib::group_filter_ensures;

    lemma_filter_complement_len(before, co, pred);
    assert forall|c: Card| removed.contains(c) implies !before.filter(pred).contains(c) by {
        if before.filter(pred).contains(c) {
            let out = before.filter(pred);
            let k = choose|k: int| 0 <= k < out.len() && out[k] == c;
            assert(pred(out[k]));
        }
    }
}

} // verus!
