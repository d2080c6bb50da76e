use heir::formats::heir_bin::decode::decode;
use heir::formats::heir_bin::encode::encode;
use heir::formats::heir_bin::grammar::DecodeError;
use heir::formats::heir_bin::layout::EncodeError;
use heir::model::{Event, Hand, Player, SeatUpdate, Session, StackUpdate, Table};
use heir::types::action::{Action, ActionError, ActionType};
use heir::types::board::Board;
use heir::types::card::{Card, CardError};
use heir::types::version::Version;

fn player(id: u32, stack: u32) -> Player {
    Player { id, name: String::new(), stack }
}

fn table(id: u32, location: &str) -> Table {
    Table {
        id,
        name: String::new(),
        location: location.to_string(),
        table_size: 6,
        rake_percentage: 0,
        rake_cap: 0,
        blinds: Vec::new(),
        initial_context: Vec::new(),
        events: Vec::new(),
    }
}

fn session(tables: Vec<Table>) -> Session {
    Session {
        version: Version::new(0, 0).unwrap(),
        id: 1,
        name: String::new(),
        tables,
        hero_id: 0,
    }
}

fn hand() -> Hand {
    Hand {
        id: 1,
        button_position: 0,
        hole_cards: vec![[Card::AceClubs, Card::KingSpades]],
        actions: vec![Action::new(ActionType::Raise, 100).unwrap()],
        timestamp: 1621234567,
        board: Board::from_array([
            Card::SevenClubs,
            Card::SevenSpades,
            Card::SevenHearts,
            Card::Xx,
            Card::Xx,
        ]),
    }
}

fn casino() -> Session {
    let mut casino = table(1, "Casino1");
    casino.initial_context = vec![player(1, 10000), player(2, 5000)];
    casino.events = vec![
        Event::Hand(hand()),
        Event::StackUpdate(StackUpdate { seat: 0, stack: 9900 }),
        Event::SeatUpdate(SeatUpdate { seat: 2, player: Some(player(3, 7500)) }),
    ];
    session(vec![casino])
}

fn casino_bytes() -> Vec<u8> {
    vec![
        // "HEIR", version 0, session 1, one table
        0x48, 0x45, 0x49, 0x52, 0x00, 0x01, 0x00, 0x00, 0x00, 0x01,
        // table 1, "Casino1", six seats
        0x01, 0x00, 0x00, 0x00, 0x43, 0x61, 0x73, 0x69, 0x6e, 0x6f, 0x31, 0x00, 0x06,
        // two players
        0x02, 0x01, 0x00, 0x00, 0x00, 0x10, 0x27, 0x00, 0x00, 0x02, 0x00, 0x00, 0x00, 0x88,
        0x13, 0x00, 0x00,
        // three events
        0x03, 0x00, 0x00, 0x00,
        // hand 1, button 0, one pair, one action, timestamp, board
        0x00, 0x01, 0x00, 0x00, 0x00, 0x00, 0x01, 0x00, 0x33, 0x01, 0x03, 0x64, 0x00, 0x00,
        0x00, 0x87, 0x13, 0xa2, 0x60, 0x00, 0x00, 0x00, 0x00, 0xd8, 0xa6, 0xd5, 0x35,
        // stack update
        0x01, 0x00, 0xac, 0x26, 0x00, 0x00,
        // seat update with a player
        0x02, 0x02, 0x01, 0x03, 0x00, 0x00, 0x00, 0x4c, 0x1d, 0x00, 0x00,
    ]
}

/// Where in `casino_bytes` things stand.
const VERSION_AT: usize = 4;
const LOCATION_AT: usize = 14;
const FIRST_EVENT_AT: usize = 44;
const FIRST_CARD_AT: usize = 51;
const ACTION_KIND_AT: usize = 54;
const BOARD_AT: usize = 67;
const SEAT_UPDATE_AT: usize = 77;

#[test]
fn concrete_scenario_bytes_and_round_trip() {
    let original = casino();
    let bytes = encode(&original).expect("the format has room for it");
    assert_eq!(bytes.len(), 88);
    assert_eq!(bytes, casino_bytes());

    let decoded = decode(&bytes).expect("what was written reads back");
    assert_eq!(decoded, original);

    assert_eq!(decoded.id, 1);
    assert_eq!(decoded.tables.len(), 1);
    let table = &decoded.tables[0];
    assert_eq!(table.id, 1);
    assert_eq!(table.location, "Casino1");
    assert_eq!(table.table_size, 6);
    assert_eq!(table.initial_context, vec![player(1, 10000), player(2, 5000)]);
    assert_eq!(table.events.len(), 3);
    match &table.events[0] {
        Event::Hand(hand) => {
            assert_eq!(hand.id, 1);
            assert_eq!(hand.button_position, 0);
            assert_eq!(hand.hole_cards, vec![[Card::AceClubs, Card::KingSpades]]);
            assert_eq!(hand.actions.len(), 1);
            assert_eq!(hand.actions[0].action_type(), ActionType::Raise);
            assert_eq!(hand.actions[0].cents(), 100);
            assert_eq!(hand.timestamp, 1621234567);
            assert_eq!(
                hand.board.to_array(),
                Ok([Card::SevenClubs, Card::SevenSpades, Card::SevenHearts, Card::Xx, Card::Xx])
            );
        }
        other => panic!("expected a hand, found {:?}", other),
    }
    assert_eq!(table.events[1], Event::StackUpdate(StackUpdate { seat: 0, stack: 9900 }));
    assert_eq!(
        table.events[2],
        Event::SeatUpdate(SeatUpdate { seat: 2, player: Some(player(3, 7500)) })
    );
}

#[test]
fn decode_reads_given_bytes() {
    assert_eq!(decode(&casino_bytes()), Ok(casino()));
}

#[test]
fn empty_session_is_ten_bytes() {
    let mut empty = session(Vec::new());
    empty.id = 0x0A0B_0C0D;
    let bytes = encode(&empty).unwrap();
    assert_eq!(bytes, vec![0x48, 0x45, 0x49, 0x52, 0x00, 0x0D, 0x0C, 0x0B, 0x0A, 0x00]);
    assert_eq!(decode(&bytes), Ok(empty));
}

#[test]
fn seat_update_without_a_player_round_trips() {
    let mut t = table(7, "");
    t.events = vec![Event::SeatUpdate(SeatUpdate { seat: 4, player: None })];
    let original = session(vec![t, table(8, "Zürich, Saal 2")]);
    let bytes = encode(&original).unwrap();
    // header, then table 7 with an empty location, no players, one event
    assert_eq!(
        &bytes[10..24],
        &[7, 0, 0, 0, 0, 6, 0, 1, 0, 0, 0, 2, 4, 0][..]
    );
    assert_eq!(decode(&bytes), Ok(original));
}

#[test]
fn exhaustive_session_round_trips_in_what_the_format_keeps() {
    let original = Session::exhaustive();
    let bytes = encode(&original).expect("the format has room for it");
    let decoded = decode(&bytes).expect("what was written reads back");

    assert_eq!(decoded.version, original.version);
    assert_eq!(decoded.id, 1738);
    assert_eq!(decoded.name, "");
    assert_eq!(decoded.hero_id, 0);
    assert_eq!(decoded.tables.len(), 1);
    let (was, is) = (&original.tables[0], &decoded.tables[0]);
    assert_eq!(is.id, was.id);
    assert_eq!(is.name, "");
    assert_eq!(is.location, "North Avenue East 1205");
    assert_eq!(is.table_size, 2);
    assert_eq!(is.rake_percentage, 0);
    assert_eq!(is.rake_cap, 0);
    assert_eq!(is.blinds, Vec::<u32>::new());
    assert_eq!(is.initial_context, vec![player(1001, 10_000), player(1002, 10_000)]);
    assert_eq!(is.events.len(), 4);
    assert_eq!(is.events[0], was.events[0]);
    assert_eq!(is.events[1], was.events[1]);
    assert_eq!(
        is.events[2],
        Event::SeatUpdate(SeatUpdate { seat: 0, player: Some(player(1003, 15_000)) })
    );
    assert_eq!(is.events[3], was.events[3]);

    // what was read back holds nothing that the format drops: it is equal
    // in every field to what its own bytes read back as
    let again = encode(&decoded).unwrap();
    assert_eq!(again, bytes);
    assert_eq!(decode(&again), Ok(decoded));
}

#[test]
fn flipping_any_byte_of_the_magic_is_bad_magic() {
    let good = casino_bytes();
    for at in 0..4 {
        for bit in 0..8 {
            let mut bytes = good.clone();
            bytes[at] ^= 1 << bit;
            assert_eq!(decode(&bytes), Err(DecodeError::BadMagic));
        }
        let mut bytes = good.clone();
        bytes[at] = !bytes[at];
        assert_eq!(decode(&bytes), Err(DecodeError::BadMagic));
    }
    // nothing after the magic is looked at
    assert_eq!(decode(b"HEIX"), Err(DecodeError::BadMagic));
    assert_eq!(decode(b"heir\x00\x01\x00\x00\x00\x00"), Err(DecodeError::BadMagic));
}

#[test]
fn truncating_anywhere_is_unexpected_eof() {
    let good = casino_bytes();
    for end in 0..good.len() {
        assert_eq!(decode(&good[..end]), Err(DecodeError::UnexpectedEof), "cut at {}", end);
    }
    let good = encode(&Session::exhaustive()).unwrap();
    for end in 0..good.len() {
        assert_eq!(decode(&good[..end]), Err(DecodeError::UnexpectedEof), "cut at {}", end);
    }
}

#[test]
fn bytes_after_the_session_are_not_looked_at() {
    let mut bytes = casino_bytes();
    bytes.extend_from_slice(&[0xFF, 0x00, 0x48]);
    assert_eq!(decode(&bytes), Ok(casino()));
}

#[test]
fn unsupported_version_byte() {
    for version in [1u8, 0x10, 0xFF] {
        let mut bytes = casino_bytes();
        bytes[VERSION_AT] = version;
        assert_eq!(decode(&bytes), Err(DecodeError::UnsupportedVersion(version)));
    }
}

#[test]
fn invalid_event_tag() {
    for tag in [3u8, 4, 0xFF] {
        let mut bytes = casino_bytes();
        bytes[FIRST_EVENT_AT] = tag;
        assert_eq!(decode(&bytes), Err(DecodeError::InvalidEventTag(tag)));
    }
}

#[test]
fn invalid_presence_flag() {
    for flag in [2u8, 0x80, 0xFF] {
        let mut bytes = casino_bytes();
        assert_eq!(bytes[SEAT_UPDATE_AT + 2], 1);
        bytes[SEAT_UPDATE_AT + 2] = flag;
        assert_eq!(decode(&bytes), Err(DecodeError::InvalidPresenceFlag(flag)));
    }
}

#[test]
fn location_that_is_not_utf8() {
    let mut bytes = casino_bytes();
    bytes[LOCATION_AT] = 0xFF;
    assert_eq!(decode(&bytes), Err(DecodeError::InvalidUtf8));

    // a lone continuation byte
    let mut bytes = casino_bytes();
    bytes[LOCATION_AT + 3] = 0x80;
    assert_eq!(decode(&bytes), Err(DecodeError::InvalidUtf8));
}

#[test]
fn location_without_an_end() {
    // header with one table, the table's id, then text that never ends
    let mut bytes = vec![0x48, 0x45, 0x49, 0x52, 0x00, 0x01, 0x00, 0x00, 0x00, 0x01];
    bytes.extend_from_slice(&[1, 0, 0, 0]);
    bytes.extend_from_slice(b"Casino1");
    assert_eq!(decode(&bytes), Err(DecodeError::UnexpectedEof));
    // not even held to UTF-8 before it is complete
    bytes.push(0xFF);
    assert_eq!(decode(&bytes), Err(DecodeError::UnexpectedEof));
}

#[test]
fn location_in_several_bytes_a_character() {
    let original = session(vec![table(3, "Café «Ñandú» 東京 🂡")]);
    let bytes = encode(&original).unwrap();
    let text = "Café «Ñandú» 東京 🂡".as_bytes();
    assert_eq!(&bytes[14..14 + text.len()], text);
    assert_eq!(bytes[14 + text.len()], 0);
    let decoded = decode(&bytes).unwrap();
    assert_eq!(decoded.tables[0].location, "Café «Ñandú» 東京 🂡");
    assert_eq!(decoded, original);
}

#[test]
fn invalid_card_in_hole_cards() {
    let mut bytes = casino_bytes();
    bytes[FIRST_CARD_AT] = 54;
    assert_eq!(decode(&bytes), Err(DecodeError::Card(CardError::InvalidU8AsCard(54))));
    let mut bytes = casino_bytes();
    bytes[FIRST_CARD_AT + 1] = 0xFF;
    assert_eq!(decode(&bytes), Err(DecodeError::Card(CardError::InvalidU8AsCard(0xFF))));
}

#[test]
fn invalid_card_on_the_board() {
    let mut bytes = casino_bytes();
    // slot 0 of the board: 24 becomes 63
    bytes[BOARD_AT] |= 0x3F;
    assert_eq!(decode(&bytes), Err(DecodeError::Card(CardError::InvalidU8AsCard(63))));
}

#[test]
fn invalid_action_kind() {
    for kind in [4u8, 0x43, 0xFF] {
        let mut bytes = casino_bytes();
        bytes[ACTION_KIND_AT] = kind;
        assert_eq!(
            decode(&bytes),
            Err(DecodeError::Action(ActionError::InvalidU8AsActionType(kind)))
        );
    }
}

#[test]
fn action_bet_size_out_of_range() {
    let mut bytes = casino_bytes();
    bytes[ACTION_KIND_AT + 1..ACTION_KIND_AT + 5].copy_from_slice(&(1u32 << 30).to_le_bytes());
    assert_eq!(
        decode(&bytes),
        Err(DecodeError::Action(ActionError::CentsExceedsRange(1 << 30)))
    );
    let mut bytes = casino_bytes();
    bytes[ACTION_KIND_AT + 1..ACTION_KIND_AT + 5]
        .copy_from_slice(&((1u32 << 30) - 1).to_le_bytes());
    let decoded = decode(&bytes).unwrap();
    match &decoded.tables[0].events[0] {
        Event::Hand(hand) => {
            assert_eq!(hand.actions[0].action_type(), ActionType::Raise);
            assert_eq!(hand.actions[0].cents(), (1 << 30) - 1);
        }
        other => panic!("expected a hand, found {:?}", other),
    }
}

#[test]
fn the_first_thing_wrong_is_reported() {
    // a bad event tag and, after it, a bad presence flag
    let mut bytes = casino_bytes();
    bytes[FIRST_EVENT_AT] = 9;
    bytes[SEAT_UPDATE_AT + 2] = 9;
    assert_eq!(decode(&bytes), Err(DecodeError::InvalidEventTag(9)));
    // a bad kind of action is judged before its bet size is read
    let mut bytes = casino_bytes();
    bytes[ACTION_KIND_AT] = 4;
    assert_eq!(
        decode(&bytes[..ACTION_KIND_AT + 1]),
        Err(DecodeError::Action(ActionError::InvalidU8AsActionType(4)))
    );
}

#[test]
fn encode_refuses_another_version() {
    let mut other = casino();
    other.version = Version::new(1, 2).unwrap();
    assert_eq!(encode(&other), Err(EncodeError::UnsupportedVersion(0x12)));
}

#[test]
fn encode_counts_up_to_255_tables() {
    let tables: Vec<Table> = (0..255).map(|id| table(id, "x")).collect();
    let original = session(tables);
    let bytes = encode(&original).unwrap();
    assert_eq!(bytes[9], 255);
    assert_eq!(bytes.len(), 10 + 255 * (4 + 2 + 1 + 1 + 4));
    assert_eq!(decode(&bytes), Ok(original));

    let tables: Vec<Table> = (0..256).map(|id| table(id, "x")).collect();
    assert_eq!(encode(&session(tables)), Err(EncodeError::TooManyTables(256)));
}

#[test]
fn encode_counts_up_to_255_players() {
    let mut t = table(1, "x");
    t.initial_context = (0..255).map(|id| player(id, 100)).collect();
    let original = session(vec![t]);
    assert_eq!(decode(&encode(&original).unwrap()), Ok(original));

    let mut t = table(1, "x");
    t.initial_context = (0..300).map(|id| player(id, 100)).collect();
    assert_eq!(encode(&session(vec![t])), Err(EncodeError::TooManyPlayers(300)));
}

#[test]
fn encode_counts_up_to_255_hole_card_pairs_and_actions() {
    let mut full = hand();
    full.hole_cards = vec![[Card::Unknown, Card::Unknown]; 255];
    full.actions = vec![Action::new(ActionType::Call, 5).unwrap(); 255];
    let mut t = table(1, "x");
    t.events = vec![Event::Hand(full)];
    let original = session(vec![t]);
    assert_eq!(decode(&encode(&original).unwrap()), Ok(original));

    let mut over = hand();
    over.hole_cards = vec![[Card::Unknown, Card::Unknown]; 256];
    over.actions = vec![Action::new(ActionType::Call, 5).unwrap(); 257];
    let mut t = table(1, "x");
    t.events = vec![Event::Hand(over)];
    assert_eq!(encode(&session(vec![t])), Err(EncodeError::TooManyHoleCards(256)));

    let mut over = hand();
    over.actions = vec![Action::new(ActionType::Call, 5).unwrap(); 257];
    let mut t = table(1, "x");
    t.events = vec![Event::StackUpdate(StackUpdate { seat: 1, stack: 2 }), Event::Hand(over)];
    assert_eq!(encode(&session(vec![t])), Err(EncodeError::TooManyActions(257)));
}

#[test]
fn encode_refuses_a_zero_byte_in_a_location() {
    let original = session(vec![table(1, "Casino\0Royale")]);
    assert_eq!(encode(&original), Err(EncodeError::NulInLocation));
    let original = session(vec![table(1, "\0")]);
    assert_eq!(encode(&original), Err(EncodeError::NulInLocation));
}

#[test]
fn encode_reports_what_is_wrong_first() {
    // the second table has too many players, the first a zero byte
    let mut crowded = table(2, "x");
    crowded.initial_context = (0..256).map(|id| player(id, 100)).collect();
    let original = session(vec![table(1, "a\0b"), crowded]);
    assert_eq!(encode(&original), Err(EncodeError::NulInLocation));

    let mut crowded = table(1, "x");
    crowded.initial_context = (0..256).map(|id| player(id, 100)).collect();
    let original = session(vec![crowded, table(2, "a\0b")]);
    assert_eq!(encode(&original), Err(EncodeError::TooManyPlayers(256)));

    // the version is judged before the tables
    let mut other = session(vec![table(1, "a\0b")]);
    other.version = Version::new(0, 1).unwrap();
    assert_eq!(encode(&other), Err(EncodeError::UnsupportedVersion(1)));
}

#[test]
fn what_the_format_drops_reads_back_empty() {
    let mut original = casino();
    original.name = "Friday night".to_string();
    original.hero_id = 7;
    original.tables[0].name = "Table 1".to_string();
    original.tables[0].rake_percentage = 5;
    original.tables[0].rake_cap = 300;
    original.tables[0].blinds = vec![50, 100];
    original.tables[0].initial_context[0].name = "Hero".to_string();
    let bytes = encode(&original).unwrap();
    assert_eq!(bytes, casino_bytes());
    assert_eq!(decode(&bytes), Ok(casino()));
}

#[test]
fn codec_error_messages() {
    assert_eq!(DecodeError::UnexpectedEof.to_string(), "The input ends before the session does.");
    assert_eq!(DecodeError::BadMagic.to_string(), "The input does not start with HEIR.");
    assert_eq!(
        DecodeError::UnsupportedVersion(3).to_string(),
        "Format version 3 is not supported."
    );
    assert_eq!(DecodeError::InvalidUtf8.to_string(), "A location is not UTF-8.");
    assert_eq!(
        DecodeError::InvalidEventTag(9).to_string(),
        "Event tag 9 names no kind of event."
    );
    assert_eq!(
        DecodeError::InvalidPresenceFlag(2).to_string(),
        "Presence flag 2 is neither 0 nor 1."
    );
    assert_eq!(
        DecodeError::Card(CardError::InvalidU8AsCard(54)).to_string(),
        "Card enum variant tag 54 is beyond range [0,53]."
    );
    assert_eq!(
        DecodeError::Action(ActionError::InvalidU8AsActionType(4)).to_string(),
        "Invalid u8 4 as ActionType; must be in 0..=3."
    );
    assert_eq!(
        EncodeError::UnsupportedVersion(18).to_string(),
        "Format version 18 is not supported."
    );
    assert_eq!(EncodeError::NulInLocation.to_string(), "A location holds a zero byte.");
    assert_eq!(
        EncodeError::TooManyTables(256).to_string(),
        "The format has no room for 256 tables."
    );
    assert_eq!(
        EncodeError::TooManyPlayers(300).to_string(),
        "The format has no room for 300 players."
    );
    assert_eq!(
        EncodeError::TooManyEvents(4294967296).to_string(),
        "The format has no room for 4294967296 events."
    );
    assert_eq!(
        EncodeError::TooManyHoleCards(256).to_string(),
        "The format has no room for 256 hole-card pairs."
    );
    assert_eq!(
        EncodeError::TooManyActions(1000).to_string(),
        "The format has no room for 1000 actions."
    );
}

#[test]
fn what_reads_writes_back_as_the_bytes_it_was_read_from() {
    let mut bytes = casino_bytes();
    bytes.extend_from_slice(&[1, 2, 3]);
    let decoded = decode(&bytes).unwrap();
    assert_eq!(encode(&decoded).unwrap(), &bytes[..88]);

    // change every byte, one at a time, to every value: whatever still
    // reads is written back as the bytes that were read
    let good = casino_bytes();
    let mut accepted = 0;
    for at in 0..good.len() {
        for value in 0..=255u8 {
            let mut changed = good.clone();
            changed[at] = value;
            if let Ok(session) = decode(&changed) {
                let written = encode(&session).expect("what was read can be written");
                assert!(changed.starts_with(&written), "byte {} set to {}", at, value);
                assert_eq!(decode(&written), Ok(session));
                accepted += 1;
            }
        }
    }
    assert!(accepted > good.len());
}
