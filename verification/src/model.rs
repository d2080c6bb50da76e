//! The session document: a session owns its tables, a table its seating and
//! its events, in the order in which they happened.
//!
//! These are plain values. They do not judge the poker in them: a rake of
//! 255% is a value like any other.

use crate::types::action::Action;
use crate::types::board::Board;
use crate::types::card::Card;
use crate::types::version::Version;
use vstd::prelude::*;

verus! {

/// A Session represents a collection of [`Table`]s along with some metadata.
#[derive(Clone, PartialEq, Debug)]
pub struct Session {
    pub version: Version,
    pub id: u32,
    /// For people to read.
    pub name: String,
    pub tables: Vec<Table>,
    pub hero_id: u32,
}

/// A Table is a continuous collection of events along with an initial
/// context and some metadata.
#[derive(Clone, PartialEq, Debug)]
pub struct Table {
    pub id: u32,
    pub name: String,
    pub location: String,
    /// The number of seats (6-max, 9-max).
    pub table_size: u8,
    pub rake_percentage: u8,
    /// In cents.
    pub rake_cap: u32,
    /// In cents.
    pub blinds: Vec<u32>,
    /// The seating when the table was opened.
    pub initial_context: Vec<Player>,
    /// Oldest first. Later events name seats that earlier ones filled.
    pub events: Vec<Event>,
}

/// A context for a player in a seat at a [`Table`].
#[derive(Clone, PartialEq, Debug)]
pub struct Player {
    pub id: u32,
    pub name: String,
    /// In cents.
    pub stack: u32,
}

/// An update to the state of the [`Table`].
#[derive(Clone, PartialEq, Debug)]
pub enum Event {
    Hand(Hand),
    StackUpdate(StackUpdate),
    SeatUpdate(SeatUpdate),
}

/// A Hand (not pair of hole cards) that occurs at a [`Table`].
#[derive(Clone, PartialEq, Debug)]
pub struct Hand {
    pub id: u32,
    /// The seat that holds the button.
    pub button_position: u8,
    /// Two cards for each seat, in seating order.
    pub hole_cards: Vec<[Card; 2]>,
    pub actions: Vec<Action>,
    /// UNIX time.
    pub timestamp: u64,
    pub board: Board,
}

/// An update to a player's stack outside of a [`Hand`] (a top-up, a rathole).
#[derive(Clone, Copy, PartialEq, Eq, Debug, Structural)]
pub struct StackUpdate {
    pub seat: u8,
    pub stack: u32,
}

/// An update to who sits in a seat. `None` says that the player left.
#[derive(Clone, PartialEq, Debug)]
pub struct SeatUpdate {
    pub seat: u8,
    pub player: Option<Player>,
}

/// What a [`Player`] holds.
pub struct PlayerView {
    pub id: u32,
    pub name: Seq<char>,
    pub stack: u32,
}

/// What a [`SeatUpdate`] holds.
pub struct SeatUpdateView {
    pub seat: u8,
    pub player: Option<PlayerView>,
}

/// What a [`Hand`] holds.
pub struct HandView {
    pub id: u32,
    pub button_position: u8,
    pub hole_cards: Seq<(Card, Card)>,
    pub actions: Seq<Action>,
    pub timestamp: u64,
    pub board: Board,
}

/// What an [`Event`] holds.
pub enum EventView {
    Hand(HandView),
    StackUpdate(StackUpdate),
    SeatUpdate(SeatUpdateView),
}

/// What a [`Table`] holds.
pub struct TableView {
    pub id: u32,
    pub name: Seq<char>,
    pub location: Seq<char>,
    pub table_size: u8,
    pub rake_percentage: u8,
    pub rake_cap: u32,
    pub blinds: Seq<u32>,
    pub initial_context: Seq<PlayerView>,
    pub events: Seq<EventView>,
}

/// What a [`Session`] holds.
pub struct SessionView {
    pub version: Version,
    pub id: u32,
    pub name: Seq<char>,
    pub tables: Seq<TableView>,
    pub hero_id: u32,
}

impl View for Player {
    type V = PlayerView;

    open spec fn view(&self) -> PlayerView {
        PlayerView { id: self.id, name: self.name@, stack: self.stack }
    }
}

impl View for SeatUpdate {
    type V = SeatUpdateView;

    open spec fn view(&self) -> SeatUpdateView {
        SeatUpdateView {
            seat: self.seat,
            player: match self.player {
                Some(p) => Some(p@),
                None => None,
            },
        }
    }
}

/// The two cards of a pair, as a tuple.
pub open spec fn pair_view(pair: [Card; 2]) -> (Card, Card) {
    (pair[0], pair[1])
}

impl View for Hand {
    type V = HandView;

    open spec fn view(&self) -> HandView {
        HandView {
            id: self.id,
            button_position: self.button_position,
            hole_cards: self.hole_cards@.map_values(|pair: [Card; 2]| pair_view(pair)),
            actions: self.actions@,
            timestamp: self.timestamp,
            board: self.board,
        }
    }
}

impl View for Event {
    type V = EventView;

    open spec fn view(&self) -> EventView {
        match *self {
            Event::Hand(h) => EventView::Hand(h@),
            Event::StackUpdate(u) => EventView::StackUpdate(u),
            Event::SeatUpdate(u) => EventView::SeatUpdate(u@),
        }
    }
}

impl View for Table {
    type V = TableView;

    open spec fn view(&self) -> TableView {
        TableView {
            id: self.id,
            name: self.name@,
            location: self.location@,
            table_size: self.table_size,
            rake_percentage: self.rake_percentage,
            rake_cap: self.rake_cap,
            blinds: self.blinds@,
            initial_context: self.initial_context@.map_values(|p: Player| p@),
            events: self.events@.map_values(|e: Event| e@),
        }
    }
}

impl View for Session {
    type V = SessionView;

    open spec fn view(&self) -> SessionView {
        SessionView {
            version: self.version,
            id: self.id,
            name: self.name@,
            tables: self.tables@.map_values(|t: Table| t@),
            hero_id: self.hero_id,
        }
    }
}

impl HandView {
    /// Whether the board holds a card in every slot.
    pub open spec fn valid(self) -> bool {
        self.board.valid()
    }
}

impl EventView {
    /// Whether the event, where it is a hand, holds a board of cards.
    pub open spec fn valid(self) -> bool {
        match self {
            EventView::Hand(h) => h.valid(),
            _ => true,
        }
    }
}

impl TableView {
    /// Whether every hand at the table holds a board of cards.
    pub open spec fn valid(self) -> bool {
        forall|i: int| 0 <= i < self.events.len() ==> (#[trigger] self.events[i]).valid()
    }
}

impl SessionView {
    /// Whether every packed value in the session is one that the scalar
    /// types hand out. It holds of the view of every `Session` there is.
    pub open spec fn valid(self) -> bool {
        forall|i: int| 0 <= i < self.tables.len() ==> (#[trigger] self.tables[i]).valid()
    }
}

} // verus!
