use crible::best_hands;
use crible::parse_cards;
use crible::score_starters;
use crible::sort_cards;
use crible::Card;
use crible::Deck;
use crible::Hand;
use crible::Number;
use crible::Scores;
use crible::Suit;

#[test]
fn fresh_deck_has_every_card_once() {
    let deck = Deck::new_shuffled();
    let cards = deck.cards();
    assert_eq!(52, cards.len());
    for i in 0..cards.len() {
        for j in 0..i {
            assert_ne!(cards[i], cards[j]);
        }
    }
}

#[test]
fn deck_removal() {
    let mut deck = Deck::new_shuffled();
    let removed = parse_cards("5d Td Qd Jd").unwrap();
    deck.remove(&removed);
    let cards = deck.cards();
    assert_eq!(48, cards.len());
    for c in cards {
        assert!(!removed.contains(c));
    }

    // removing again, or removing absent cards, changes nothing
    deck.remove(&removed);
    assert_eq!(48, deck.cards().len());
}

#[test]
fn deck_draw() {
    let mut deck = Deck::new_shuffled();
    let drawn = deck.draw();
    assert_eq!(51, deck.cards().len());
    assert!(!deck.cards().contains(&drawn));
}

#[test]
fn deck_draw_hand() {
    let mut deck = Deck::new_shuffled();
    let hand = deck.draw_hand().unwrap();
    assert_eq!(48, deck.cards().len());
    for c in hand.cards {
        assert!(!deck.cards().contains(&c));
    }
}

#[test]
fn discard_search_counts() {
    // C(6, 4) = 15 candidate hands, each scored against 52 - 6 = 46 starters
    let mut cards = parse_cards("5d Td Qd Jd Ah 2c").unwrap();
    sort_cards(&mut cards);
    let mut deck = Deck::new_shuffled();
    deck.remove(&cards);
    assert_eq!(46, deck.cards().len());

    let results = best_hands(&cards, &deck);
    assert_eq!(15, results.len());
    for (_, scores) in &results {
        assert_eq!(46, scores.len());
    }

    // ranked by descending total score
    for w in results.windows(2) {
        assert!(w[0].1.total() >= w[1].1.total());
    }
}

#[test]
fn score_starters_records_every_starter() {
    let cards = parse_cards("5d Td Qd Jd").unwrap();
    let hand = Hand::from_slice(cards.as_slice()).unwrap();
    let mut deck = Deck::new_shuffled();
    deck.remove(&cards);
    let scores = score_starters(&hand, &deck);
    assert_eq!(48, scores.len());
    for (i, (starter, points)) in scores.iter().iter().enumerate() {
        assert_eq!(deck.cards()[i], *starter);
        assert_eq!(hand.score(*starter, false), *points);
    }
}

#[test]
fn grouping_by_score() {
    let mut scores = Scores::new();
    scores.push(Card::new(Number::C3, Suit::H), 2);
    scores.push(Card::new(Number::C5, Suit::D), 4);
    scores.push(Card::new(Number::A, Suit::H), 2);
    scores.push(Card::new(Number::C7, Suit::C), 4);
    scores.sort();
    let groups = scores.grouped();
    assert_eq!(2, groups.len());
    assert_eq!(4, groups[0].0);
    assert_eq!(
        vec![Card::new(Number::C5, Suit::D), Card::new(Number::C7, Suit::C)],
        groups[0].1
    );
    assert_eq!(2, groups[1].0);
    assert_eq!(
        vec![Card::new(Number::A, Suit::H), Card::new(Number::C3, Suit::H)],
        groups[1].1
    );
}

#[test]
fn sort_cards_orders_by_rank_then_suit() {
    let mut cards = parse_cards("Kc 5h Ah 5d 5s").unwrap();
    sort_cards(&mut cards);
    assert_eq!(
        vec![
            Card::new(Number::A, Suit::H),
            Card::new(Number::C5, Suit::H),
            Card::new(Number::C5, Suit::D),
            Card::new(Number::C5, Suit::S),
            Card::new(Number::K, Suit::C),
        ],
        cards
    );
}
