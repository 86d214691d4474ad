//! Reading card notation such as `"5d Td Qd Jd"` into cards.

use vstd::prelude::*;
use vstd::string::StrSliceExecFns;

use crate::cards::{Card, Number, Suit};
use crate::errors::CribleError;

verus! {

/// Name for what `char::is_whitespace` returns of a character: whether it has
/// the Unicode whitespace property. The result depends on the character alone.
pub uninterp spec fn is_space(c: char) -> bool;

/// Relies on `char::is_whitespace`: true exactly for characters with the
/// Unicode whitespace property, a function of the character alone.
#[verifier::external_body]
fn char_is_whitespace(c: char) -> (r: bool)
    ensures
        r == is_space(c),
{
    c.is_whitespace()
}

/// The number a notation character denotes, if any: `A`, `1` or a digit for
/// the low ranks, then `T`, `J`, `Q`, `K`, each letter in either case.
pub open spec fn number_of_char(c: char) -> Option<Number> {
    if c == 'A' || c == 'a' || c == '1' {
        Some(Number::A)
    } else if c == '2' {
        Some(Number::C2)
    } else if c == '3' {
        Some(Number::C3)
    } else if c == '4' {
        Some(Number::C4)
    } else if c == '5' {
        Some(Number::C5)
    } else if c == '6' {
        Some(Number::C6)
    } else if c == '7' {
        Some(Number::C7)
    } else if c == '8' {
        Some(Number::C8)
    } else if c == '9' {
        Some(Number::C9)
    } else if c == 'T' || c == 't' {
        Some(Number::T)
    } else if c == 'J' || c == 'j' {
        Some(Number::J)
    } else if c == 'Q' || c == 'q' {
        Some(Number::Q)
    } else if c == 'K' || c == 'k' {
        Some(Number::K)
    } else {
        None
    }
}

/// The suit a notation character denotes, if any: `s`, `h`, `d` or `c`, in
/// either case.
pub open spec fn suit_of_char(c: char) -> Option<Suit> {
    if c == 's' || c == 'S' {
        Some(Suit::S)
    } else if c == 'h' || c == 'H' {
        Some(Suit::H)
    } else if c == 'd' || c == 'D' {
        Some(Suit::D)
    } else if c == 'c' || c == 'C' {
        Some(Suit::C)
    } else {
        None
    }
}

impl Number {
    /// Read a notation character as a card number.
    pub fn from_char(c: char) -> (r: Result<Number, CribleError>)
        ensures
            match number_of_char(c) {
                Some(n) => r == Ok::<Number, CribleError>(n),
                None => r == Err::<Number, CribleError>(CribleError::InvalidNumber(c)),
            },
    {
        match c {
            'A' | 'a' | '1' => Ok(Number::A),
            '2' => Ok(Number::C2),
            '3' => Ok(Number::C3),
            '4' => Ok(Number::C4),
            '5' => Ok(Number::C5),
            '6' => Ok(Number::C6),
            '7' => Ok(Number::C7),
            '8' => Ok(Number::C8),
            '9' => Ok(Number::C9),
            'T' | 't' => Ok(Number::T),
            'J' | 'j' => Ok(Number::J),
            'Q' | 'q' => Ok(Number::Q),
            'K' | 'k' => Ok(Number::K),
            _ => Err(CribleError::InvalidNumber(c)),
        }
    }
}

impl Suit {
    /// Read a notation character as a suit.
    pub fn from_char(c: char) -> (r: Result<Suit, CribleError>)
        ensures
            match suit_of_char(c) {
                Some(s) => r == Ok::<Suit, CribleError>(s),
                None => r == Err::<Suit, CribleError>(CribleError::InvalidSuit(c)),
            },
    {
        match c {
            's' | 'S' => Ok(Suit::S),
            'h' | 'H' => Ok(Suit::H),
            'd' | 'D' => Ok(Suit::D),
            'c' | 'C' => Ok(Suit::C),
            _ => Err(CribleError::InvalidSuit(c)),
        }
    }
}

/// What parsing a character sequence yields: whitespace is skipped, then each
/// card is a number character directly followed by a suit character. The
/// first offending character decides the error.
pub open spec fn parse_spec(cs: Seq<char>) -> Result<Seq<Card>, CribleError>
    decreases cs.len(),
{
    if cs.len() == 0 {
        Ok(Seq::empty())
    } else if is_space(cs[0]) {
        parse_spec(cs.drop_first())
    } else {
        match number_of_char(cs[0]) {
            None => Err(CribleError::InvalidNumber(cs[0])),
            Some(n) => {
                if cs.len() == 1 {
                    Err(CribleError::MissingSuit(cs[0]))
                } else {
                    match suit_of_char(cs[1]) {
                        None => Err(CribleError::InvalidSuit(cs[1])),
                        Some(su) => match parse_spec(cs.skip(2)) {
                            Ok(rest) => Ok(seq![Card { number: n, suit: su }] + rest),
                            Err(e) => Err(e),
                        },
                    }
                }
            },
        }
    }
}

/// Read a whole notation string as a list of cards.
pub fn parse_cards(input: &str) -> (r: Result<Vec<Card>, CribleError>)
    ensures
        match r {
            Ok(cards) => parse_spec(input@) == Ok::<Seq<Card>, CribleError>(cards@),
            Err(e) => parse_spec(input@) == Err::<Seq<Card>, CribleError>(e),
        },
{
    let n = input.unicode_len();
    let mut i: usize = 0;
    let mut cards: Vec<Card> = Vec::new();
    proof {
        assert(input@.skip(0) =~= input@);
        assert(forall|rest: Seq<Card>| (#[trigger] (cards@ + rest)) =~= rest);
    }
    while i < n
        invariant
            i <= n,
            n == input@.len(),
            parse_spec(input@) == match parse_spec(input@.skip(i as int)) {
                Ok(rest) => Ok::<Seq<Card>, CribleError>(cards@ + rest),
                Err(e) => Err::<Seq<Card>, CribleError>(e),
            },
        decreases n - i,
    {
        let ghost tail = input@.skip(i as int);
        proof {
            assert(tail.len() == n - i);
            assert(tail[0] == input@[i as int]);
        }
        let c = input.get_char(i);
        if char_is_whitespace(c) {
            proof {
                assert(tail.drop_first() =~= input@.skip(i as int + 1));
            }
            i += 1;
        } else {
            match Number::from_char(c) {
                Err(e) => {
                    return Err(e);
                },
                Ok(number) => {
                    if i + 1 >= n {
                        return Err(CribleError::MissingSuit(c));
                    }
                    proof {
                        assert(tail[1] == input@[i as int + 1]);
                    }
                    let sc = input.get_char(i + 1);
                    match Suit::from_char(sc) {
                        Err(e) => {
                            return Err(e);
                        },
                        Ok(suit) => {
                            let card = Card::new(number, suit);
                            proof {
                                assert(tail.skip(2) =~= input@.skip(i as int + 2));
                                assert(forall|rest: Seq<Card>|
                                    (cards@ + (#[trigger] (seq![card] + rest))) =~= cards@.push(
                                        card,
                                    ) + rest);
                            }
                            cards.push(card);
                            i += 2;
                        },
                    }
                }
            }
        }
    }
    proof {
        assert(input@.skip(n as int).len() == 0);
        assert(cards@ + Seq::<Card>::empty() =~= cards@);
    }
    Ok(cards)
}

} // verus!
