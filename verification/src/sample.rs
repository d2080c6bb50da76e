//! A session to try an encoding on.

use crate::formats::heir_bin::layout::{first_fault, session_fault, table_fault, tables_fault};
use crate::model::{
    Event, EventView, Hand, HandView, Player, PlayerView, SeatUpdate, SeatUpdateView, Session,
    SessionView, StackUpdate, Table, TableView,
};
use crate::types::action::{Action, ActionType, CENTS_LIMIT};
use crate::types::board::Board;
use crate::types::card::Card;
use crate::types::version::Version;
use vstd::prelude::*;
use vstd::string::*;

verus! {

/// The action of kind `at` and of `cents`.
pub open spec fn action_of(at: ActionType, cents: u32) -> Action
    recommends
        cents < CENTS_LIMIT,
{
    Action::from_word(Action::pack(at, cents))
}

fn action(at: ActionType, cents: u32) -> (r: Action)
    requires
        cents < CENTS_LIMIT,
    ensures
        r == action_of(at, cents),
{
    match Action::new(at, cents) {
        Ok(action) => action,
        Err(_) => unreached(),
    }
}

fn player(id: u32, name: &str, stack: u32) -> (r: Player)
    ensures
        r@ == (PlayerView { id, name: name@, stack }),
{
    Player { id, name: String::from_str(name), stack }
}

/// The first hand of the sample: a raise, a call, a bet, a raise and a fold
/// on a flop.
pub open spec fn sample_first_hand() -> HandView {
    HandView {
        id: 9001,
        button_position: 1,
        hole_cards: seq![(Card::AceClubs, Card::AceSpades), (Card::TwoClubs, Card::TwoSpades)],
        actions: seq![
            action_of(ActionType::Raise, 300),
            action_of(ActionType::Call, 300),
            action_of(ActionType::Bet, 600),
            action_of(ActionType::Raise, 1800),
            action_of(ActionType::CheckFold, 600),
        ],
        timestamp: 1724293476,
        board: Board::of(
            seq![Card::ThreeClubs, Card::ThreeHearts, Card::KingClubs, Card::Xx, Card::Xx],
        ),
    }
}

/// The second hand of the sample: one pair of hole cards withheld, and a
/// board with all five cards.
pub open spec fn sample_second_hand() -> HandView {
    HandView {
        id: 9002,
        button_position: 0,
        hole_cards: seq![(Card::AceClubs, Card::AceSpades), (Card::Unknown, Card::Unknown)],
        actions: seq![
            action_of(ActionType::Call, 100),
            action_of(ActionType::CheckFold, 100),
            action_of(ActionType::CheckFold, 0),
            action_of(ActionType::Bet, 400),
            action_of(ActionType::Raise, 800),
            action_of(ActionType::Raise, 1600),
            action_of(ActionType::Call, 1600),
            action_of(ActionType::CheckFold, 0),
            action_of(ActionType::CheckFold, 0),
            action_of(ActionType::CheckFold, 0),
            action_of(ActionType::CheckFold, 0),
        ],
        timestamp: 1724293500,
        board: Board::of(
            seq![
                Card::SevenHearts,
                Card::SevenSpades,
                Card::SevenClubs,
                Card::SevenDiamonds,
                Card::EightHearts,
            ],
        ),
    }
}

/// The one table of the sample: two players, and between two hands a new
/// stack and a new player.
pub open spec fn sample_table() -> TableView {
    TableView {
        id: 1,
        name: "Table 1"@,
        location: "North Avenue East 1205"@,
        table_size: 2,
        rake_percentage: 5,
        rake_cap: 3,
        blinds: seq![50u32, 100u32],
        initial_context: seq![
            PlayerView { id: 1001, name: "Player 1001"@, stack: 10_000 },
            PlayerView { id: 1002, name: "Player 1002"@, stack: 10_000 },
        ],
        events: seq![
            EventView::Hand(sample_first_hand()),
            EventView::StackUpdate(StackUpdate { seat: 1, stack: 20_000 }),
            EventView::SeatUpdate(
                SeatUpdateView {
                    seat: 0,
                    player: Some(PlayerView { id: 1003, name: "Player 1003"@, stack: 15_000 }),
                },
            ),
            EventView::Hand(sample_second_hand()),
        ],
    }
}

/// What `Session::exhaustive` holds.
pub open spec fn sample_session() -> SessionView {
    SessionView {
        version: Version::from_byte(0),
        id: 1738,
        name: "Exhaustive Session"@,
        tables: seq![sample_table()],
        hero_id: 0,
    }
}

/// The binary format has room for the sample, and its boards hold cards.
pub proof fn lemma_sample_session()
    ensures
        session_fault(sample_session()).is_none(),
        sample_session().valid(),
{
    let s = sample_session();
    let t = sample_table();
    reveal_strlit("North Avenue East 1205");
    assert(!t.location.contains('\0'));
    reveal_with_fuel(first_fault, 6);
    assert(t.events.len() == 4);
    assert(table_fault(t).is_none());
    assert(s.tables.drop_first().len() == 0);
    assert(tables_fault(s.tables).is_none());
    Version::lemma_byte_from_byte(0);
    Board::lemma_of(
        seq![Card::ThreeClubs, Card::ThreeHearts, Card::KingClubs, Card::Xx, Card::Xx],
    );
    Board::lemma_of(
        seq![
            Card::SevenHearts,
            Card::SevenSpades,
            Card::SevenClubs,
            Card::SevenDiamonds,
            Card::EightHearts,
        ],
    );
}

impl Session {
    /// Returns a [`Session`] that holds every kind of entry a table can
    /// have: hands with known and with withheld cards, a changed stack, a
    /// changed seat. The binary format has room for it.
    pub fn exhaustive() -> (r: Session)
        ensures
            r@ == sample_session(),
            session_fault(r@).is_none(),
            r@.valid(),
    {
        let first = Hand {
            id: 9001,
            button_position: 1,
            hole_cards: vec![[Card::AceClubs, Card::AceSpades], [Card::TwoClubs, Card::TwoSpades]],
            actions: vec![
                action(ActionType::Raise, 300),
                action(ActionType::Call, 300),
                action(ActionType::Bet, 600),
                action(ActionType::Raise, 1800),
                action(ActionType::CheckFold, 600),
            ],
            timestamp: 1724293476,
            board: Board::from_array(
                [Card::ThreeClubs, Card::ThreeHearts, Card::KingClubs, Card::Xx, Card::Xx],
            ),
        };
        let second = Hand {
            id: 9002,
            button_position: 0,
            hole_cards: vec![[Card::AceClubs, Card::AceSpades], [Card::Unknown, Card::Unknown]],
            actions: vec![
                action(ActionType::Call, 100),
                action(ActionType::CheckFold, 100),
                action(ActionType::CheckFold, 0),
                action(ActionType::Bet, 400),
                action(ActionType::Raise, 800),
                action(ActionType::Raise, 1600),
                action(ActionType::Call, 1600),
                action(ActionType::CheckFold, 0),
                action(ActionType::CheckFold, 0),
                action(ActionType::CheckFold, 0),
                action(ActionType::CheckFold, 0),
            ],
            timestamp: 1724293500,
            board: Board::from_array(
                [
                    Card::SevenHearts,
                    Card::SevenSpades,
                    Card::SevenClubs,
                    Card::SevenDiamonds,
                    Card::EightHearts,
                ],
            ),
        };
        assert(first@.hole_cards =~= sample_first_hand().hole_cards);
        assert(first@.actions =~= sample_first_hand().actions);
        assert(second@.hole_cards =~= sample_second_hand().hole_cards);
        assert(second@.actions =~= sample_second_hand().actions);
        let events = vec![
            Event::Hand(first),
            Event::StackUpdate(StackUpdate { seat: 1, stack: 20_000 }),
            Event::SeatUpdate(
                SeatUpdate { seat: 0, player: Some(player(1003, "Player 1003", 15_000)) },
            ),
            Event::Hand(second),
        ];
        let table = Table {
            id: 1,
            name: String::from_str("Table 1"),
            location: String::from_str("North Avenue East 1205"),
            table_size: 2,
            rake_percentage: 5,
            rake_cap: 3,
            blinds: vec![50, 100],
            initial_context: vec![
                player(1001, "Player 1001", 10_000),
                player(1002, "Player 1002", 10_000),
            ],
            events,
        };
        assert(table@.events =~= sample_table().events);
        assert(table@.initial_context =~= sample_table().initial_context);
        assert(table@.blinds =~= sample_table().blinds);
        let version = match Version::new(0, 0) {
            Ok(version) => version,
            Err(_) => unreached(),
        };
        assert(0u8 == (0u8 << 4) | 0u8) by (bit_vector);
        let r = Session {
            version,
            id: 1738,
            name: String::from_str("Exhaustive Session"),
            tables: vec![table],
            hero_id: 0,
        };
        assert(r@.tables =~= sample_session().tables);
        proof {
            lemma_sample_session();
        }
        r
    }
}

} // verus!
