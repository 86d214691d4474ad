//! The card model: suits, ranks, cards and four-card hands.

use vstd::prelude::*;

use crate::errors::CribleError;

verus! {

/// One of the four suits. The declaration order is the fixed display order,
/// used only to break ties between cards of equal rank.
#[derive(Clone, Copy, PartialEq, Eq, Structural, Debug)]
pub enum Suit {
    H,
    D,
    S,
    C,
}

/// One of the thirteen ranks, ace low.
#[derive(Clone, Copy, PartialEq, Eq, Structural, Debug)]
pub enum Number {
    A,
    C2,
    C3,
    C4,
    C5,
    C6,
    C7,
    C8,
    C9,
    T,
    J,
    Q,
    K,
}

/// Position of a suit in the fixed display order.
pub open spec fn suit_order(s: Suit) -> int {
    match s {
        Suit::H => 0,
        Suit::D => 1,
        Suit::S => 2,
        Suit::C => 3,
    }
}

/// Rank index of a number, 0 for the ace up to 12 for the king.
/// Used for pairing and run detection.
pub open spec fn rank_of(n: Number) -> int {
    match n {
        Number::A => 0,
        Number::C2 => 1,
        Number::C3 => 2,
        Number::C4 => 3,
        Number::C5 => 4,
        Number::C6 => 5,
        Number::C7 => 6,
        Number::C8 => 7,
        Number::C9 => 8,
        Number::T => 9,
        Number::J => 10,
        Number::Q => 11,
        Number::K => 12,
    }
}

/// Face value of a number, 1 to 10; the only use is summing to fifteen.
pub open spec fn value_of(n: Number) -> int {
    match n {
        Number::A => 1,
        Number::C2 => 2,
        Number::C3 => 3,
        Number::C4 => 4,
        Number::C5 => 5,
        Number::C6 => 6,
        Number::C7 => 7,
        Number::C8 => 8,
        Number::C9 => 9,
        Number::T => 10,
        Number::J => 10,
        Number::Q => 10,
        Number::K => 10,
    }
}

impl Suit {
    /// All four suits, in display order.
    pub fn all() -> (r: Vec<Suit>)
        ensures
            r@ == seq![Suit::H, Suit::D, Suit::S, Suit::C],
            forall|s: Suit| r@.contains(s),
    {
        let r: Vec<Suit> = vec![Suit::H, Suit::D, Suit::S, Suit::C];
        proof {
            assert(forall|s: Suit| r@.contains(s)) by {
                assert(r@[0] == Suit::H && r@[1] == Suit::D && r@[2] == Suit::S && r@[3]
                    == Suit::C);
                assert forall|s: Suit| r@.contains(s) by {
                    match s {
                        Suit::H => assert(r@[0] == s),
                        Suit::D => assert(r@[1] == s),
                        Suit::S => assert(r@[2] == s),
                        Suit::C => assert(r@[3] == s),
                    }
                }
            }
        }
        r
    }

    /// Position of this suit in the fixed display order.
    pub fn order_index(&self) -> (r: u8)
        ensures
            r == suit_order(*self),
    {
        match self {
            Suit::H => 0,
            Suit::D => 1,
            Suit::S => 2,
            Suit::C => 3,
        }
    }
}

impl Number {
    /// All thirteen numbers, ace first.
    pub fn all() -> (r: Vec<Number>)
        ensures
            r@.len() == 13,
            forall|i: int| 0 <= i < 13 ==> rank_of(#[trigger] r@[i]) == i,
    {
        let r: Vec<Number> = vec![
            Number::A,
            Number::C2,
            Number::C3,
            Number::C4,
            Number::C5,
            Number::C6,
            Number::C7,
            Number::C8,
            Number::C9,
            Number::T,
            Number::J,
            Number::Q,
            Number::K,
        ];
        r
    }

    /// The numerical value, between 1 and 10.
    pub fn value(&self) -> (r: u8)
        ensures
            r == value_of(*self),
    {
        match self {
            Number::A => 1,
            Number::C2 => 2,
            Number::C3 => 3,
            Number::C4 => 4,
            Number::C5 => 5,
            Number::C6 => 6,
            Number::C7 => 7,
            Number::C8 => 8,
            Number::C9 => 9,
            Number::T => 10,
            Number::J => 10,
            Number::Q => 10,
            Number::K => 10,
        }
    }

    /// The rank index, between 0 and 12.
    pub fn rank_index(&self) -> (r: u8)
        ensures
            r == rank_of(*self),
    {
        match self {
            Number::A => 0,
            Number::C2 => 1,
            Number::C3 => 2,
            Number::C4 => 3,
            Number::C5 => 4,
            Number::C6 => 5,
            Number::C7 => 6,
            Number::C8 => 7,
            Number::C9 => 8,
            Number::T => 9,
            Number::J => 10,
            Number::Q => 11,
            Number::K => 12,
        }
    }
}

/// A playing card: a rank and a suit.
#[derive(Clone, Copy, PartialEq, Eq, Structural, Debug)]
pub struct Card {
    pub number: Number,
    pub suit: Suit,
}

/// Sort key of a card: rank first, suit display order second.
/// Distinct cards always have distinct keys.
pub open spec fn card_key(c: Card) -> int {
    rank_of(c.number) * 4 + suit_order(c.suit)
}

/// The total order on cards: ascending rank, ties broken by suit display order.
pub open spec fn card_le(a: Card, b: Card) -> bool {
    card_key(a) <= card_key(b)
}

/// Distinct numbers have distinct rank indices.
pub proof fn lemma_rank_of_injective(a: Number, b: Number)
    requires
        rank_of(a) == rank_of(b),
    ensures
        a == b,
{
}

impl Card {
    /// Pair a number with a suit.
    pub fn new(number: Number, suit: Suit) -> (r: Self)
        ensures
            r == (Card { number, suit }),
    {
        Self { number, suit }
    }

    /// The numerical value of the card's rank, between 1 and 10.
    pub fn value(&self) -> (r: u8)
        ensures
            r == value_of(self.number),
    {
        self.number.value()
    }

    /// Whether this card comes no later than `other` in the card order.
    pub fn le(&self, other: &Card) -> (r: bool)
        ensures
            r == card_le(*self, *other),
    {
        let ra = self.number.rank_index();
        let rb = other.number.rank_index();
        if ra < rb {
            true
        } else if ra > rb {
            false
        } else {
            self.suit.order_index() <= other.suit.order_index()
        }
    }
}

/// A hand of exactly four cards.
#[derive(Clone, Copy, PartialEq, Eq, Debug)]
pub struct Hand {
    pub cards: [Card; 4],
}

impl View for Hand {
    type V = Seq<Card>;

    open spec fn view(&self) -> Seq<Card> {
        self.cards@
    }
}

impl Hand {
    /// Make a hand out of four cards.
    pub fn from_array(cards: [Card; 4]) -> (r: Self)
        ensures
            r@ == cards@,
    {
        Self { cards }
    }

    /// Make a hand out of a slice, which must hold exactly four cards.
    pub fn from_slice(slice: &[Card]) -> (r: Result<Self, CribleError>)
        ensures
            slice@.len() == 4 ==> (r matches Ok(h) && h@ == slice@),
            slice@.len() != 4 ==> r == Err::<Hand, _>(CribleError::HandSize(slice@.len() as usize)),
    {
        if slice.len() == 4 {
            let cards = [slice[0], slice[1], slice[2], slice[3]];
            proof {
                assert(cards@ =~= slice@);
            }
            Ok(Self { cards })
        } else {
            Err(CribleError::HandSize(slice.len()))
        }
    }
}

} // verus!
