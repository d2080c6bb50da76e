use heir::types::action::{Action, ActionError, ActionType};
use heir::types::ErrorKind;

#[test]
fn test_action_new_valid() {
    let action = Action::new(ActionType::Call, 100).expect("Valid action");
    assert_eq!(action.action_type(), ActionType::Call);
    assert_eq!(action.cents(), 100);

    let action = Action::new(ActionType::Raise, (1 << 30) - 1).expect("Valid action");
    assert_eq!(action.action_type(), ActionType::Raise);
    assert_eq!(action.cents(), (1 << 30) - 1);
}

#[test]
fn test_action_new_invalid_cents() {
    let result = Action::new(ActionType::Bet, 1 << 30);
    assert!(result.is_err());
    if let Err(e) = result {
        assert_eq!(e, ActionError::CentsExceedsRange(1 << 30));
    }
}

#[test]
fn test_actiontype_from_u8_valid() {
    for value in 0..=3 {
        let at = ActionType::from_u8(value).expect("Valid ActionType");
        assert_eq!(at.to_u8(), value);
    }
}

#[test]
fn test_actiontype_from_u8_invalid() {
    let invalid_values = [4, 5, 255];
    for &value in &invalid_values {
        let result = ActionType::from_u8(value);
        assert!(result.is_err(), "Value {} should be invalid", value);
    }
}

#[test]
fn test_action_action_type_and_cents() {
    let action = Action::new(ActionType::Bet, 500).expect("Valid action");
    assert_eq!(action.action_type(), ActionType::Bet);
    assert_eq!(action.cents(), 500);
}

#[test]
fn test_action_serialize_deserialize() {
    let original_action = Action::new(ActionType::Raise, 1000).expect("Valid action");
    let mut buffer = Vec::new();
    original_action.serialize(&mut buffer);

    let mut cursor = &buffer[..];
    let deserialized_action = Action::deserialize(&mut cursor).expect("Deserialization failed");

    assert_eq!(original_action, deserialized_action);
    assert_eq!(deserialized_action.action_type(), ActionType::Raise);
    assert_eq!(deserialized_action.cents(), 1000);
}

#[test]
fn test_action_deserialize_invalid_action_type() {
    // A kind of 4 does not fit in the two bits above the bet size: shifted
    // there it is gone, and what is left is a check or fold of 500.
    let invalid_value = (4u32 << 30) | 500;
    let buffer = invalid_value.to_le_bytes().to_vec();

    let mut cursor = &buffer[..];
    let result = Action::deserialize(&mut cursor);
    let action = result.expect("two bits always name a kind");
    assert_eq!(action.action_type(), ActionType::CheckFold);
    assert_eq!(action.cents(), 500);
}

#[test]
fn test_action_deserialize_io_error() {
    // Provide insufficient data to trigger an IO error
    let buffer = vec![0u8; 3]; // Should be 4 bytes
    let mut cursor = &buffer[..];
    let result = Action::deserialize(&mut cursor);
    assert!(result.is_err());
    if let Err(e) = result {
        assert_eq!(e, ActionError::IoError(ErrorKind::UnexpectedEof));
    }
}

#[test]
fn action_new_boundaries() {
    for at in [ActionType::CheckFold, ActionType::Call, ActionType::Bet, ActionType::Raise] {
        let action = Action::new(at, (1 << 30) - 1).unwrap();
        assert_eq!(action.action_type(), at);
        assert_eq!(action.cents(), (1 << 30) - 1);
        assert_eq!(Action::new(at, 1 << 30), Err(ActionError::CentsExceedsRange(1 << 30)));
        assert_eq!(Action::new(at, u32::MAX), Err(ActionError::CentsExceedsRange(u32::MAX)));
        let action = Action::new(at, 0).unwrap();
        assert_eq!(action.action_type(), at);
        assert_eq!(action.cents(), 0);
    }
}

#[test]
fn actiontype_from_u8_fails_exactly_from_4() {
    let kinds = [ActionType::CheckFold, ActionType::Call, ActionType::Bet, ActionType::Raise];
    for value in 0..=255u8 {
        let result = ActionType::from_u8(value);
        if value >= 4 {
            assert_eq!(result, Err(ActionError::InvalidU8AsActionType(value)));
        } else {
            assert_eq!(result, Ok(kinds[value as usize]));
        }
    }
}

#[test]
fn action_serialize_is_kind_above_cents_little_endian() {
    let mut buffer = vec![0x11];
    Action::new(ActionType::Raise, 1000).unwrap().serialize(&mut buffer);
    // 3 << 30 | 1000 = 0xC00003E8
    assert_eq!(buffer, vec![0x11, 0xE8, 0x03, 0x00, 0xC0]);

    let mut buffer = Vec::new();
    Action::new(ActionType::Call, 0x0102_0304).unwrap().serialize(&mut buffer);
    assert_eq!(buffer, vec![0x04, 0x03, 0x02, 0x41]);
}

#[test]
fn action_deserialize_takes_four_bytes_and_leaves_the_rest() {
    let data = [0xE8, 0x03, 0x00, 0x80, 0x09, 0x08];
    let mut cursor = &data[..];
    let action = Action::deserialize(&mut cursor).unwrap();
    assert_eq!(action.action_type(), ActionType::Bet);
    assert_eq!(action.cents(), 1000);
    assert_eq!(cursor, &[0x09, 0x08][..]);
}

#[test]
fn action_deserialize_short_input_leaves_the_reader() {
    let data = [1u8, 2, 3];
    let mut cursor = &data[..];
    assert_eq!(
        Action::deserialize(&mut cursor),
        Err(ActionError::IoError(ErrorKind::UnexpectedEof))
    );
    assert_eq!(cursor, &data[..]);
}

#[test]
fn action_error_messages() {
    assert_eq!(
        ActionError::InvalidU8AsActionType(4).to_string(),
        "Invalid u8 4 as ActionType; must be in 0..=3."
    );
    assert_eq!(
        ActionError::CentsExceedsRange(1 << 30).to_string(),
        "Cents value 1073741824 is exceeds 2^30 - 1."
    );
    assert_eq!(
        ActionError::CentsExceedsRange(u32::MAX).to_string(),
        "Cents value 4294967295 is exceeds 2^30 - 1."
    );
    assert_eq!(
        ActionError::IoError(ErrorKind::UnexpectedEof).to_string(),
        "IO error during serialization/deserialization: UnexpectedEof"
    );
}
