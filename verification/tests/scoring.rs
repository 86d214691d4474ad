use crible::parse_cards;
use crible::Card;
use crible::Hand;
use crible::Number;
use crible::Suit;

fn value_for(number: Number) -> u8 {
    Card::new(number, Suit::C).value()
}

fn hand(input: &str) -> Hand {
    let cards = parse_cards(input).unwrap();
    Hand::from_slice(cards.as_slice()).unwrap()
}

fn card(input: &str) -> Card {
    let cards = parse_cards(input).unwrap();
    assert_eq!(1, cards.len());
    *cards.first().unwrap()
}

fn score_hand(cards: &str, starter: &str) -> u8 {
    hand(cards).score(card(starter), false)
}

fn score_crib(cards: &str, starter: &str) -> u8 {
    hand(cards).score(card(starter), true)
}

#[test]
fn card_value() {
    assert_eq!(1, value_for(Number::A));
    assert_eq!(2, value_for(Number::C2));
    assert_eq!(3, value_for(Number::C3));
    assert_eq!(4, value_for(Number::C4));
    assert_eq!(5, value_for(Number::C5));
    assert_eq!(6, value_for(Number::C6));
    assert_eq!(7, value_for(Number::C7));
    assert_eq!(8, value_for(Number::C8));
    assert_eq!(9, value_for(Number::C9));
    assert_eq!(10, value_for(Number::T));
    assert_eq!(10, value_for(Number::J));
    assert_eq!(10, value_for(Number::Q));
    assert_eq!(10, value_for(Number::K));
}

#[test]
fn main_card_value() {
    assert_eq!(1, value_for(Number::A));
    assert_eq!(2, value_for(Number::C2));
    assert_eq!(3, value_for(Number::C3));
    assert_eq!(4, value_for(Number::C4));
    assert_eq!(5, value_for(Number::C5));
    assert_eq!(6, value_for(Number::C6));
    assert_eq!(7, value_for(Number::C7));
    assert_eq!(8, value_for(Number::C8));
    assert_eq!(9, value_for(Number::C9));
    assert_eq!(10, value_for(Number::T));
    assert_eq!(10, value_for(Number::J));
    assert_eq!(10, value_for(Number::Q));
    assert_eq!(10, value_for(Number::K));
}

#[test]
fn score_tests() {
    // Fifteen 6
    assert_eq!(6, score_hand("2d Js Ks 5h", "Th"));
    // Fifteen with 3 cards
    assert_eq!(2, score_hand("1d 2s 6s 8h", "Th"));
    // Fifteen with 4 cards (+1 pair)
    assert_eq!(4, score_hand("1d 1s 3d 5h ", "8h"));
    // Fifteen with 5 cards (+ 5 for straight)
    assert_eq!(7, score_hand("1d 2s 3s 4h", "5h"));

    // Hand all spade
    assert_eq!(4, score_hand("2s 4s Qs Ks", "Th"));
    // Hand + starter all spade
    assert_eq!(5, score_hand("2s 4s Qs Ks", "Ts"));
    // Crib all spade: no good
    assert_eq!(0, score_crib("2s 4s Qs Ks", "Th"));
    // Crib + starter all spade
    assert_eq!(5, score_crib("2s 4s Qs Ks", "Ts"));

    // Pair(s)
    assert_eq!(2, score_hand("2s 2h 9d Kc", "Qh"));
    assert_eq!(4, score_hand("2s 2h 9d 9c", "Qh"));

    // Triple
    assert_eq!(6, score_hand("2s 2h 2d Kc", "Qh"));

    // 4 of a kind
    assert_eq!(12, score_hand("2s 2h 2d 2c", "3h"));
    assert_eq!(12, score_hand("2s 2h 2d 3h", "2c"));

    // 3 straight
    assert_eq!(3, score_hand("1s Th Jd Qc", "8h"));

    // 4 straight
    assert_eq!(4, score_hand("1s Th Jd Qc", "Kh"));

    // 5 straight
    assert_eq!(5, score_hand("9s Th Jd Qc", "Kh"));

    // 2x 3 straight
    assert_eq!(8, score_hand("1s Th Jd Qc", "Qh"));

    // 9x 3 straight
    assert_eq!(15, score_hand("Qs Th Jd Qc", "Qh"));

    // 4x 3 straight
    assert_eq!(16, score_hand("Th Ts Jd Qc", "Qh"));

    // Not-straight of 2, starting from 2 (tests for improperly starting straight at Ace (0))
    assert_eq!(2, score_hand("2h 3s 9d 8c", "Qh"));

    // Knob
    assert_eq!(1, score_hand("1s 6h 7d Jc", "Qc"));

    // The one and only
    assert_eq!(29, score_hand("5s 5h 5d Jc", "5c"));
}

#[test]
fn main_score_tests() {
    // 3 straight
    assert_eq!(3, score_hand("1s Th Jd Qc", "8h"));

    // 4 straight
    assert_eq!(4, score_hand("1s Th Jd Qc", "Kh"));

    // 2x 3 straight
    assert_eq!(8, score_hand("1s Th Jd Qc", "Qh"));

    // 4x 3 straight
    assert_eq!(16, score_hand("Th Ts Jd Qc", "Qh"));

    // Knob
    assert_eq!(1, score_hand("1s 6h 7d Jc", "Qc"));

    // The one and only
    assert_eq!(29, score_hand("5s 5h 5d Jc", "5c"));
}

#[test]
fn score_ignores_hand_order() {
    let starter = card("Qh");
    let orderings = [
        "Th Ts Jd Qc",
        "Ts Th Jd Qc",
        "Jd Qc Th Ts",
        "Qc Jd Ts Th",
    ];
    for cards in orderings {
        assert_eq!(16, hand(cards).score(starter, false));
        assert_eq!(16, hand(cards).score(starter, true));
    }
}

#[test]
fn crib_never_beats_hand_on_flush() {
    // suit-uniform hand, starter of another suit: 4 against 0
    let h = hand("2s 4s Qs Ks");
    let s = card("Th");
    assert!(h.score(s, true) <= h.score(s, false));
    assert_eq!(4, h.score(s, false));
    assert_eq!(0, h.score(s, true));
}

#[test]
fn score_is_idempotent() {
    let h = hand("5s 5h 5d Jc");
    let s = card("5c");
    let first = h.score(s, false);
    let second = h.score(s, false);
    assert_eq!(first, second);
    assert_eq!(29, first);
}

#[test]
fn score_stays_in_range() {
    // a handful of varied hands all stay within the 0..=29 range
    let cases = [
        ("5s 5h 5d Jc", "5c"),
        ("1d 2s 3s 4h", "5h"),
        ("2s 4s Qs Ks", "Ts"),
        ("Th Ts Jd Qc", "Qh"),
        ("2h 3s 9d 8c", "Qh"),
    ];
    for (cards, starter) in cases {
        for crib in [false, true] {
            let points = hand(cards).score(card(starter), crib);
            assert!(points <= 29);
        }
    }
}
