use heir::types::board::{Board, BoardError};
use heir::types::card::{Card, CardError};
use heir::types::ErrorKind;

#[test]
fn test_board_packing() -> Result<(), BoardError> {
    let cards = [
        Card::AceSpades,
        Card::KingHearts,
        Card::TenClubs,
        Card::FiveDiamonds,
        Card::TwoHearts,
    ];
    let board = Board::from_array(cards);
    let retrieved_cards = board.to_array()?;
    assert_eq!(cards, retrieved_cards);
    Ok(())
}

#[test]
fn test_board_serialization() -> Result<(), BoardError> {
    let cards = [
        Card::AceSpades,
        Card::KingHearts,
        Card::TenClubs,
        Card::FiveDiamonds,
        Card::TwoHearts,
    ];
    let board = Board::from_array(cards);

    let mut buffer = Vec::new();
    board.serialize(&mut buffer);

    let mut reader = &buffer[..];
    let deserialized_board = Board::deserialize(&mut reader)?;

    assert_eq!(board, deserialized_board);
    Ok(())
}

#[test]
fn test_set_and_get_card() -> Result<(), BoardError> {
    let mut board = Board::new();
    board.set_card(2, Card::QueenDiamonds)?;
    let card = board.get_card(2)?;
    assert_eq!(card, Card::QueenDiamonds);
    Ok(())
}

#[test]
fn test_invalid_card_index() {
    let mut board = Board::new();
    assert!(board.set_card(5, Card::AceClubs).is_err());
    assert!(board.get_card(5).is_err());
}

#[test]
fn new_board_reports_every_slot_empty() {
    let board = Board::new();
    for index in 0..5 {
        assert_eq!(board.get_card(index), Ok(Card::Xx));
    }
    assert_eq!(board.to_array(), Ok([Card::Xx; 5]));
}

#[test]
fn setting_one_slot_leaves_the_other_four() {
    let start = [
        Card::AceSpades,
        Card::KingHearts,
        Card::TenClubs,
        Card::FiveDiamonds,
        Card::TwoHearts,
    ];
    for index in 0..5 {
        for value in 0..=53u8 {
            let card = Card::from_u8(value).unwrap();
            let mut board = Board::from_array(start);
            assert_eq!(board.set_card(index, card), Ok(()));
            let mut expected = start;
            expected[index] = card;
            assert_eq!(board.to_array(), Ok(expected));
        }
    }
    let mut board = Board::new();
    board.set_card(3, Card::SevenClubs).unwrap();
    assert_eq!(
        board.to_array(),
        Ok([Card::Xx, Card::Xx, Card::Xx, Card::SevenClubs, Card::Xx])
    );
}

#[test]
fn slot_index_fails_exactly_from_5() {
    for index in [0usize, 1, 2, 3, 4] {
        let mut board = Board::new();
        assert_eq!(board.set_card(index, Card::AceClubs), Ok(()));
        assert_eq!(board.get_card(index), Ok(Card::AceClubs));
    }
    for index in [5usize, 6, 100, usize::MAX] {
        let mut board = Board::from_array([Card::TwoClubs; 5]);
        assert_eq!(
            board.set_card(index, Card::AceClubs),
            Err(BoardError::IndexOutOfBounds(index))
        );
        assert_eq!(board, Board::from_array([Card::TwoClubs; 5]));
        assert_eq!(board.get_card(index), Err(BoardError::IndexOutOfBounds(index)));
    }
}

#[test]
fn board_serialize_packs_six_bits_a_slot_little_endian() {
    let board = Board::from_array([
        Card::SevenClubs,
        Card::SevenSpades,
        Card::SevenHearts,
        Card::Xx,
        Card::Xx,
    ]);
    let mut buffer = vec![0xEE];
    board.serialize(&mut buffer);
    // 24 | 27 << 6 | 26 << 12 | 53 << 18 | 53 << 24 = 0x35D5A6D8
    assert_eq!(buffer, vec![0xEE, 0xD8, 0xA6, 0xD5, 0x35]);

    let mut buffer = Vec::new();
    Board::new().serialize(&mut buffer);
    // 53 in every slot: 0x35D75D75
    assert_eq!(buffer, vec![0x75, 0x5D, 0xD7, 0x35]);
}

#[test]
fn board_deserialize_reads_the_slots_and_leaves_the_rest() {
    let data = [0xD8, 0xA6, 0xD5, 0x35, 0x01];
    let mut reader = &data[..];
    let board = Board::deserialize(&mut reader).unwrap();
    assert_eq!(
        board.to_array(),
        Ok([Card::SevenClubs, Card::SevenSpades, Card::SevenHearts, Card::Xx, Card::Xx])
    );
    assert_eq!(reader, &[0x01][..]);
}

#[test]
fn board_deserialize_short_input() {
    let data = [0xD8, 0xA6, 0xD5];
    let mut reader = &data[..];
    assert_eq!(
        Board::deserialize(&mut reader),
        Err(BoardError::IoError(ErrorKind::UnexpectedEof))
    );
    assert_eq!(reader, &data[..]);
}

#[test]
fn board_deserialize_reports_the_first_slot_that_is_no_card() {
    // slot 0 holds 54
    let word: u32 = 54 | 1 << 6 | 2 << 12 | 3 << 18 | 4 << 24;
    let data = word.to_le_bytes();
    let mut reader = &data[..];
    assert_eq!(
        Board::deserialize(&mut reader),
        Err(BoardError::InvalidCard(CardError::InvalidU8AsCard(54)))
    );
    assert_eq!(reader, &data[..]);

    // slots 2 and 4 hold 60 and 63: the lower one is reported
    let word: u32 = 0 | 1 << 6 | 60 << 12 | 3 << 18 | 63 << 24;
    let data = word.to_le_bytes();
    let mut reader = &data[..];
    assert_eq!(
        Board::deserialize(&mut reader),
        Err(BoardError::InvalidCard(CardError::InvalidU8AsCard(60)))
    );

    // only the last slot is bad
    let word: u32 = 53 | 53 << 6 | 53 << 12 | 53 << 18 | 54 << 24;
    let data = word.to_le_bytes();
    let mut reader = &data[..];
    assert_eq!(
        Board::deserialize(&mut reader),
        Err(BoardError::InvalidCard(CardError::InvalidU8AsCard(54)))
    );
}

#[test]
fn board_deserialize_keeps_the_two_unused_bits() {
    let word: u32 = 0xC000_0000 | 53 | 53 << 6 | 53 << 12 | 53 << 18 | 53 << 24;
    let data = word.to_le_bytes();
    let mut reader = &data[..];
    let board = Board::deserialize(&mut reader).unwrap();
    assert_eq!(board.to_array(), Ok([Card::Xx; 5]));
    assert_ne!(board, Board::new());
    let mut buffer = Vec::new();
    board.serialize(&mut buffer);
    assert_eq!(buffer, data.to_vec());
}

#[test]
fn board_error_messages() {
    assert_eq!(
        BoardError::IndexOutOfBounds(5).to_string(),
        "Index out of bounds, boards contain 5 cards."
    );
    assert_eq!(
        BoardError::InvalidCard(CardError::InvalidU8AsCard(60)).to_string(),
        "Card enum variant tag 60 is beyond range [0,53]."
    );
    assert_eq!(
        BoardError::IoError(ErrorKind::UnexpectedEof).to_string(),
        "IO error during serialization/deserialization: UnexpectedEof"
    );
}
