use heir::types::card::{Card, CardError};

#[test]
fn test_card_to_u8() {
    let card = Card::AceClubs;
    assert_eq!(card.to_u8(), 0);

    let card = Card::AceSpades;
    assert_eq!(card.to_u8(), 3);

    let card = Card::KingSpades;
    assert_eq!(card.to_u8(), 51);

    let card = Card::Unknown;
    assert_eq!(card.to_u8(), 52);

    let card = Card::Xx;
    assert_eq!(card.to_u8(), 53);
}

#[test]
fn test_card_from_u8_valid() {
    for value in 0..=53 {
        let card = Card::from_u8(value).expect("Valid card value");
        assert_eq!(card.to_u8(), value);
    }
}

#[test]
fn test_card_from_u8_invalid() {
    let invalid_values = [54, 100, 255];
    for &value in &invalid_values {
        let result = Card::from_u8(value);
        assert!(result.is_err(), "Value {} should be invalid", value);
    }
}

#[test]
fn test_card_display() {
    let card = Card::AceSpades;
    assert_eq!(card.to_string(), "As");

    let card = Card::TwoClubs;
    assert_eq!(card.to_string(), "2c");

    let card = Card::TenHearts;
    assert_eq!(card.to_string(), "Th");

    let card = Card::KingDiamonds;
    assert_eq!(card.to_string(), "Kd");

    let card = Card::Unknown;
    assert_eq!(card.to_string(), "??");

    let card = Card::Xx;
    assert_eq!(card.to_string(), "Xx");
}

#[test]
fn card_from_u8_fails_exactly_from_54() {
    for value in 0..=255u8 {
        let result = Card::from_u8(value);
        if value >= 54 {
            assert_eq!(result, Err(CardError::InvalidU8AsCard(value)));
        } else {
            assert_eq!(result.unwrap().to_u8(), value);
        }
    }
}

#[test]
fn card_tags_are_rank_major() {
    assert_eq!(Card::from_u8(0), Ok(Card::AceClubs));
    assert_eq!(Card::from_u8(1), Ok(Card::AceDiamonds));
    assert_eq!(Card::from_u8(2), Ok(Card::AceHearts));
    assert_eq!(Card::from_u8(3), Ok(Card::AceSpades));
    assert_eq!(Card::from_u8(4), Ok(Card::TwoClubs));
    assert_eq!(Card::from_u8(9 * 4 + 2), Ok(Card::TenHearts));
    assert_eq!(Card::from_u8(12 * 4 + 3), Ok(Card::KingSpades));
    assert_eq!(Card::from_u8(52), Ok(Card::Unknown));
    assert_eq!(Card::from_u8(53), Ok(Card::Xx));
}

#[test]
fn card_notation_of_the_whole_deck() {
    let ranks = ['A', '2', '3', '4', '5', '6', '7', '8', '9', 'T', 'J', 'Q', 'K'];
    let suits = ['c', 'd', 'h', 's'];
    for value in 0..52u8 {
        let card = Card::from_u8(value).unwrap();
        let expected = format!("{}{}", ranks[(value / 4) as usize], suits[(value % 4) as usize]);
        assert_eq!(card.to_string(), expected);
    }
}

#[test]
fn card_error_message() {
    assert_eq!(
        CardError::InvalidU8AsCard(54).to_string(),
        "Card enum variant tag 54 is beyond range [0,53]."
    );
    assert_eq!(
        CardError::InvalidU8AsCard(200).to_string(),
        "Card enum variant tag 200 is beyond range [0,53]."
    );
}
