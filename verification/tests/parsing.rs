use crible::parse_cards;
use crible::Card;
use crible::Number;
use crible::Suit;

fn assert_error(cards: &str, msg: &str) {
    assert_eq!(
        Err(msg.to_string()),
        parse_cards(cards).map_err(|e| e.message()),
    );
}

#[test]
fn parse_cards_tests() {
    // Accepts any suits
    assert_eq!(vec![Card::new(Number::A, Suit::H)], parse_cards("Ah").unwrap());
    assert_eq!(vec![Card::new(Number::A, Suit::D)], parse_cards("Ad").unwrap());
    assert_eq!(vec![Card::new(Number::A, Suit::S)], parse_cards("As").unwrap());
    assert_eq!(vec![Card::new(Number::A, Suit::C)], parse_cards("Ac").unwrap());

    // Accepts any casing
    assert_eq!(vec![Card::new(Number::A, Suit::C)], parse_cards("aC").unwrap());

    // Accepts spaces
    assert_eq!(
        vec![Card::new(Number::A, Suit::C), Card::new(Number::A, Suit::H)],
        parse_cards(" Ac  Ah ").unwrap()
    );

    // Accepts any of: A123456789TJQK
    assert_eq!(vec![Card::new(Number::A, Suit::C)], parse_cards("Ac").unwrap());
    assert_eq!(vec![Card::new(Number::A, Suit::C)], parse_cards("1c").unwrap());
    assert_eq!(vec![Card::new(Number::C2, Suit::C)], parse_cards("2c").unwrap());
    assert_eq!(vec![Card::new(Number::C3, Suit::C)], parse_cards("3c").unwrap());
    assert_eq!(vec![Card::new(Number::C4, Suit::C)], parse_cards("4c").unwrap());
    assert_eq!(vec![Card::new(Number::C5, Suit::C)], parse_cards("5c").unwrap());
    assert_eq!(vec![Card::new(Number::C6, Suit::C)], parse_cards("6c").unwrap());
    assert_eq!(vec![Card::new(Number::C7, Suit::C)], parse_cards("7c").unwrap());
    assert_eq!(vec![Card::new(Number::C8, Suit::C)], parse_cards("8c").unwrap());
    assert_eq!(vec![Card::new(Number::C9, Suit::C)], parse_cards("9c").unwrap());
    assert_eq!(vec![Card::new(Number::T, Suit::C)], parse_cards("Tc").unwrap());
    assert_eq!(vec![Card::new(Number::J, Suit::C)], parse_cards("Jc").unwrap());
    assert_eq!(vec![Card::new(Number::Q, Suit::C)], parse_cards("Qc").unwrap());
    assert_eq!(vec![Card::new(Number::K, Suit::C)], parse_cards("Kc").unwrap());

    assert_error(
        "Fc",
        "Invalid card number: F, must be one of: A23456789TJQK",
    );
    assert_error("2g", "Invalid suit: g, must be one of: shdc");
    assert_error("2", "unexpected end, missing suit after 2");
}

#[test]
fn main_parse_cards_tests() {
    // Accepts any suits
    assert_eq!(vec![Card::new(Number::A, Suit::H)], parse_cards("Ah").unwrap());
    assert_eq!(vec![Card::new(Number::A, Suit::D)], parse_cards("Ad").unwrap());
    assert_eq!(vec![Card::new(Number::A, Suit::S)], parse_cards("As").unwrap());
    assert_eq!(vec![Card::new(Number::A, Suit::C)], parse_cards("Ac").unwrap());

    // Accepts any casing
    assert_eq!(vec![Card::new(Number::A, Suit::C)], parse_cards("aC").unwrap());

    // Accepts spaces
    assert_eq!(
        vec![Card::new(Number::A, Suit::C), Card::new(Number::A, Suit::H)],
        parse_cards(" Ac  Ah ").unwrap()
    );

    // Accepts any of: A123456789TJQK
    assert_eq!(vec![Card::new(Number::A, Suit::C)], parse_cards("Ac").unwrap());
    assert_eq!(vec![Card::new(Number::A, Suit::C)], parse_cards("1c").unwrap());
    assert_eq!(vec![Card::new(Number::C2, Suit::C)], parse_cards("2c").unwrap());
    assert_eq!(vec![Card::new(Number::C3, Suit::C)], parse_cards("3c").unwrap());
    assert_eq!(vec![Card::new(Number::C4, Suit::C)], parse_cards("4c").unwrap());
    assert_eq!(vec![Card::new(Number::C5, Suit::C)], parse_cards("5c").unwrap());
    assert_eq!(vec![Card::new(Number::C6, Suit::C)], parse_cards("6c").unwrap());
    assert_eq!(vec![Card::new(Number::C7, Suit::C)], parse_cards("7c").unwrap());
    assert_eq!(vec![Card::new(Number::C8, Suit::C)], parse_cards("8c").unwrap());
    assert_eq!(vec![Card::new(Number::C9, Suit::C)], parse_cards("9c").unwrap());
    assert_eq!(vec![Card::new(Number::T, Suit::C)], parse_cards("Tc").unwrap());
    assert_eq!(vec![Card::new(Number::J, Suit::C)], parse_cards("Jc").unwrap());
    assert_eq!(vec![Card::new(Number::Q, Suit::C)], parse_cards("Qc").unwrap());
    assert_eq!(vec![Card::new(Number::K, Suit::C)], parse_cards("Kc").unwrap());

    assert_error(
        "Fc",
        "Invalid card number: F, must be one of: A23456789TJQK",
    );
    assert_error("2g", "Invalid suit: g, must be one of: shdc");
    assert_error("2", "unexpected end, missing suit after 2");
}

#[test]
fn hand_size_error_message() {
    let cards = parse_cards("Ah 2h 3h").unwrap();
    let err = crible::Hand::from_slice(cards.as_slice()).unwrap_err();
    assert_eq!("4 card expected, 3 given".to_string(), err.message());

    let more = parse_cards("Ah 2h 3h 4h 5h 6h 7h 8h 9h Th Jh Qh Kh").unwrap();
    let err = crible::Hand::from_slice(more.as_slice()).unwrap_err();
    assert_eq!("4 card expected, 13 given".to_string(), err.message());
}
