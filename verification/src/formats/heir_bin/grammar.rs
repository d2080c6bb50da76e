//! Which session a run of bytes spells, read once from the front, and at
//! which byte and why a run of bytes spells none.

use crate::formats::heir_bin::layout::{
    magic, FORMAT_VERSION, TAG_HAND, TAG_SEAT_UPDATE, TAG_STACK_UPDATE,
};
use crate::model::{
    EventView, HandView, PlayerView, SeatUpdateView, SessionView, StackUpdate, TableView,
};
use crate::text::{decimal, push_decimal};
use crate::types::action::{Action, ActionError, ActionType, CENTS_LIMIT};
use crate::types::board::{Board, BoardError};
use crate::types::card::{Card, CardError, MAX_TAG};
use crate::types::version::Version;
use crate::wire::{take_u32, take_u64, take_u8};
use vstd::prelude::*;
use vstd::string::*;
use vstd::utf8::{decode_utf8, valid_utf8};

verus! {

/// Why a run of bytes is no session.
#[derive(Debug, Clone, Copy, PartialEq, Eq, Structural)]
pub enum DecodeError {
    /// The bytes end before the value that is being read does.
    UnexpectedEof,
    /// The first four bytes are not `HEIR`.
    BadMagic,
    /// The version byte names a layout that this is not.
    UnsupportedVersion(u8),
    /// A location is not UTF-8.
    InvalidUtf8,
    /// An event starts with a tag that names no kind of event.
    InvalidEventTag(u8),
    /// The byte that says whether a player follows is neither 0 nor 1.
    InvalidPresenceFlag(u8),
    /// A card byte, or a slot of a board, holds a tag above 53.
    Card(CardError),
    /// An action's kind is above 3, or its bet size needs more than 30 bits.
    Action(ActionError),
}

impl DecodeError {
    /// What the error says.
    pub open spec fn message(&self) -> Seq<char> {
        match *self {
            DecodeError::UnexpectedEof => "The input ends before the session does."@,
            DecodeError::BadMagic => "The input does not start with HEIR."@,
            DecodeError::UnsupportedVersion(version) => "Format version "@ + decimal(
                version as nat,
            ) + " is not supported."@,
            DecodeError::InvalidUtf8 => "A location is not UTF-8."@,
            DecodeError::InvalidEventTag(tag) => "Event tag "@ + decimal(tag as nat)
                + " names no kind of event."@,
            DecodeError::InvalidPresenceFlag(flag) => "Presence flag "@ + decimal(flag as nat)
                + " is neither 0 nor 1."@,
            DecodeError::Card(e) => e.message(),
            DecodeError::Action(e) => e.message(),
        }
    }

    /// The error as a sentence.
    pub fn to_string(&self) -> (r: String)
        ensures
            r@ == self.message(),
    {
        match *self {
            DecodeError::UnexpectedEof => String::from_str(
                "The input ends before the session does.",
            ),
            DecodeError::BadMagic => String::from_str("The input does not start with HEIR."),
            DecodeError::UnsupportedVersion(version) => {
                let mut r = String::from_str("Format version ");
                push_decimal(&mut r, version as u64);
                r.append(" is not supported.");
                r
            },
            DecodeError::InvalidUtf8 => String::from_str("A location is not UTF-8."),
            DecodeError::InvalidEventTag(tag) => {
                let mut r = String::from_str("Event tag ");
                push_decimal(&mut r, tag as u64);
                r.append(" names no kind of event.");
                r
            },
            DecodeError::InvalidPresenceFlag(flag) => {
                let mut r = String::from_str("Presence flag ");
                push_decimal(&mut r, flag as u64);
                r.append(" is neither 0 nor 1.");
                r
            },
            DecodeError::Card(e) => e.to_string(),
            DecodeError::Action(e) => e.to_string(),
        }
    }
}

/// A value read off the front of some bytes, with the bytes after it.
pub type Parsed<T> = Result<(T, Seq<u8>), DecodeError>;

/// One byte.
pub open spec fn parse_u8(bytes: Seq<u8>) -> Parsed<u8> {
    match take_u8(bytes) {
        Some(p) => Ok(p),
        None => Err(DecodeError::UnexpectedEof),
    }
}

/// Four bytes, little-endian.
pub open spec fn parse_u32(bytes: Seq<u8>) -> Parsed<u32> {
    match take_u32(bytes) {
        Some(p) => Ok(p),
        None => Err(DecodeError::UnexpectedEof),
    }
}

/// Eight bytes, little-endian.
pub open spec fn parse_u64(bytes: Seq<u8>) -> Parsed<u64> {
    match take_u64(bytes) {
        Some(p) => Ok(p),
        None => Err(DecodeError::UnexpectedEof),
    }
}

/// `n` items, each read by `item` from where the one before it ended.
pub open spec fn parse_each<T>(item: spec_fn(Seq<u8>) -> Parsed<T>, n: nat, bytes: Seq<u8>)
    -> Parsed<Seq<T>>
    decreases n,
{
    if n == 0 {
        Ok((Seq::empty(), bytes))
    } else {
        match item(bytes) {
            Err(e) => Err(e),
            Ok((x, rest)) => match parse_each(item, (n - 1) as nat, rest) {
                Err(e) => Err(e),
                Ok((xs, rest)) => Ok((seq![x] + xs, rest)),
            },
        }
    }
}

/// One byte that holds the tag of a card.
pub open spec fn parse_card(bytes: Seq<u8>) -> Parsed<Card> {
    match parse_u8(bytes) {
        Err(e) => Err(e),
        Ok((tag, rest)) => if tag <= MAX_TAG {
            Ok((Card::with_tag(tag), rest))
        } else {
            Err(DecodeError::Card(CardError::InvalidU8AsCard(tag)))
        },
    }
}

/// The two hole cards of a seat, a byte each.
pub open spec fn parse_pair(bytes: Seq<u8>) -> Parsed<(Card, Card)> {
    match parse_card(bytes) {
        Err(e) => Err(e),
        Ok((first, rest)) => match parse_card(rest) {
            Err(e) => Err(e),
            Ok((second, rest)) => Ok(((first, second), rest)),
        },
    }
}

/// The kind is judged before the bet size is read.
pub open spec fn parse_action(bytes: Seq<u8>) -> Parsed<Action> {
    match parse_u8(bytes) {
        Err(e) => Err(e),
        Ok((code, rest)) => if code > 3 {
            Err(DecodeError::Action(ActionError::InvalidU8AsActionType(code)))
        } else {
            match parse_u32(rest) {
                Err(e) => Err(e),
                Ok((cents, rest)) => if cents >= CENTS_LIMIT {
                    Err(DecodeError::Action(ActionError::CentsExceedsRange(cents)))
                } else {
                    Ok(
                        (
                            Action::from_word(Action::pack(ActionType::with_code(code), cents)),
                            rest,
                        ),
                    )
                },
            }
        },
    }
}

/// The packed board, every slot of which must hold a card.
pub open spec fn parse_board(bytes: Seq<u8>) -> Parsed<Board> {
    match Board::parse(bytes) {
        Ok(p) => Ok(p),
        Err(BoardError::InvalidCard(e)) => Err(DecodeError::Card(e)),
        Err(_) => Err(DecodeError::UnexpectedEof),
    }
}

/// A player: id, then stack. The name has no place in the layout and
/// comes out empty.
pub open spec fn parse_player(bytes: Seq<u8>) -> Parsed<PlayerView> {
    match parse_u32(bytes) {
        Err(e) => Err(e),
        Ok((id, rest)) => match parse_u32(rest) {
            Err(e) => Err(e),
            Ok((stack, rest)) => Ok((PlayerView { id, name: Seq::empty(), stack }, rest)),
        },
    }
}

/// The pairs of a hand: their number in one byte, then the pairs.
pub open spec fn parse_pairs(bytes: Seq<u8>) -> Parsed<Seq<(Card, Card)>> {
    match parse_u8(bytes) {
        Err(e) => Err(e),
        Ok((count, rest)) => parse_each(|b: Seq<u8>| parse_pair(b), count as nat, rest),
    }
}

/// The actions of a hand: their number in one byte, then the actions.
pub open spec fn parse_actions(bytes: Seq<u8>) -> Parsed<Seq<Action>> {
    match parse_u8(bytes) {
        Err(e) => Err(e),
        Ok((count, rest)) => parse_each(|b: Seq<u8>| parse_action(b), count as nat, rest),
    }
}

/// The seating of a table: the number of players in one byte, then the
/// players.
pub open spec fn parse_players(bytes: Seq<u8>) -> Parsed<Seq<PlayerView>> {
    match parse_u8(bytes) {
        Err(e) => Err(e),
        Ok((count, rest)) => parse_each(|b: Seq<u8>| parse_player(b), count as nat, rest),
    }
}

/// The body of a hand: id, button, hole cards, actions, timestamp, board.
pub open spec fn parse_hand(bytes: Seq<u8>) -> Parsed<HandView> {
    match parse_u32(bytes) {
        Err(e) => Err(e),
        Ok((id, rest)) => match parse_u8(rest) {
            Err(e) => Err(e),
            Ok((button_position, rest)) => match parse_pairs(rest) {
                Err(e) => Err(e),
                Ok((hole_cards, rest)) => match parse_actions(rest) {
                    Err(e) => Err(e),
                    Ok((actions, rest)) => match parse_u64(rest) {
                        Err(e) => Err(e),
                        Ok((timestamp, rest)) => match parse_board(rest) {
                            Err(e) => Err(e),
                            Ok((board, rest)) => Ok(
                                (
                                    HandView {
                                        id,
                                        button_position,
                                        hole_cards,
                                        actions,
                                        timestamp,
                                        board,
                                    },
                                    rest,
                                ),
                            ),
                        },
                    },
                },
            },
        },
    }
}

/// The body of a stack update: seat, then the new stack.
pub open spec fn parse_stack_update(bytes: Seq<u8>) -> Parsed<StackUpdate> {
    match parse_u8(bytes) {
        Err(e) => Err(e),
        Ok((seat, rest)) => match parse_u32(rest) {
            Err(e) => Err(e),
            Ok((stack, rest)) => Ok((StackUpdate { seat, stack }, rest)),
        },
    }
}

/// The body of a seat update: seat, then a flag that is 1 before a player
/// and 0 where the seat was left.
pub open spec fn parse_seat_update(bytes: Seq<u8>) -> Parsed<SeatUpdateView> {
    match parse_u8(bytes) {
        Err(e) => Err(e),
        Ok((seat, rest)) => match parse_u8(rest) {
            Err(e) => Err(e),
            Ok((flag, rest)) => if flag == 0 {
                Ok((SeatUpdateView { seat, player: None }, rest))
            } else if flag == 1 {
                match parse_player(rest) {
                    Err(e) => Err(e),
                    Ok((p, rest)) => Ok((SeatUpdateView { seat, player: Some(p) }, rest)),
                }
            } else {
                Err(DecodeError::InvalidPresenceFlag(flag))
            },
        },
    }
}

/// An event: the tag byte, then the body that the tag announces.
pub open spec fn parse_event(bytes: Seq<u8>) -> Parsed<EventView> {
    match parse_u8(bytes) {
        Err(e) => Err(e),
        Ok((tag, rest)) => if tag == TAG_HAND {
            match parse_hand(rest) {
                Err(e) => Err(e),
                Ok((h, rest)) => Ok((EventView::Hand(h), rest)),
            }
        } else if tag == TAG_STACK_UPDATE {
            match parse_stack_update(rest) {
                Err(e) => Err(e),
                Ok((u, rest)) => Ok((EventView::StackUpdate(u), rest)),
            }
        } else if tag == TAG_SEAT_UPDATE {
            match parse_seat_update(rest) {
                Err(e) => Err(e),
                Ok((u, rest)) => Ok((EventView::SeatUpdate(u), rest)),
            }
        } else {
            Err(DecodeError::InvalidEventTag(tag))
        },
    }
}

/// The events of a table: their number in four bytes, then the events.
pub open spec fn parse_events(bytes: Seq<u8>) -> Parsed<Seq<EventView>> {
    match parse_u32(bytes) {
        Err(e) => Err(e),
        Ok((count, rest)) => parse_each(|b: Seq<u8>| parse_event(b), count as nat, rest),
    }
}

/// Where the first zero byte of `bytes` stands, if there is one.
pub open spec fn nul_position(bytes: Seq<u8>) -> Option<int>
    decreases bytes.len(),
{
    if bytes.len() == 0 {
        None
    } else if bytes.first() == 0 {
        Some(0)
    } else {
        match nul_position(bytes.drop_first()) {
            Some(n) => Some(n + 1),
            None => None,
        }
    }
}

/// Before the first zero byte no byte is zero.
pub proof fn lemma_nul_position_found(bytes: Seq<u8>)
    ensures
        nul_position(bytes) matches Some(n) ==> 0 <= n < bytes.len() && bytes[n] == 0
            && forall|j: int| 0 <= j < n ==> bytes[j] != 0,
    decreases bytes.len(),
{
    if bytes.len() > 0 && bytes.first() != 0 {
        let tail = bytes.drop_first();
        lemma_nul_position_found(tail);
        if let Some(n) = nul_position(tail) {
            assert(tail[n] == bytes[n + 1]);
            assert forall|j: int| 0 <= j < n + 1 implies bytes[j] != 0 by {
                if j > 0 {
                    assert(tail[j - 1] == bytes[j]);
                }
            }
        }
    }
}

/// Where the first zero byte stands: after `n` bytes that are not zero.
pub proof fn lemma_nul_position(bytes: Seq<u8>, n: int)
    requires
        0 <= n <= bytes.len(),
        forall|j: int| 0 <= j < n ==> bytes[j] != 0,
        n < bytes.len() ==> bytes[n] == 0,
    ensures
        nul_position(bytes) == (if n < bytes.len() {
            Some(n)
        } else {
            None
        }),
    decreases n,
{
    if n > 0 {
        let tail = bytes.drop_first();
        assert forall|j: int| 0 <= j < n - 1 implies tail[j] != 0 by {
            assert(tail[j] == bytes[j + 1]);
        }
        lemma_nul_position(tail, n - 1);
    }
}

/// A location runs up to the first zero byte. Without one the bytes have
/// ended too early; only a complete location is held to UTF-8.
pub open spec fn parse_location(bytes: Seq<u8>) -> Parsed<Seq<char>> {
    match nul_position(bytes) {
        None => Err(DecodeError::UnexpectedEof),
        Some(n) => if valid_utf8(bytes.take(n)) {
            Ok((decode_utf8(bytes.take(n)), bytes.skip(n + 1)))
        } else {
            Err(DecodeError::InvalidUtf8)
        },
    }
}

/// A table: id, location, size, seating, events. Name, rake and blinds
/// have no place in the layout and come out empty.
pub open spec fn parse_table(bytes: Seq<u8>) -> Parsed<TableView> {
    match parse_u32(bytes) {
        Err(e) => Err(e),
        Ok((id, rest)) => match parse_location(rest) {
            Err(e) => Err(e),
            Ok((location, rest)) => match parse_u8(rest) {
                Err(e) => Err(e),
                Ok((table_size, rest)) => match parse_players(rest) {
                    Err(e) => Err(e),
                    Ok((initial_context, rest)) => match parse_events(rest) {
                        Err(e) => Err(e),
                        Ok((events, rest)) => Ok(
                            (
                                TableView {
                                    id,
                                    name: Seq::empty(),
                                    location,
                                    table_size,
                                    rake_percentage: 0,
                                    rake_cap: 0,
                                    blinds: Seq::empty(),
                                    initial_context,
                                    events,
                                },
                                rest,
                            ),
                        ),
                    },
                },
            },
        },
    }
}

/// The four magic bytes, then the version, which must be that of this
/// layout.
pub open spec fn parse_preamble(bytes: Seq<u8>) -> Parsed<Version> {
    if bytes.len() < 4 {
        Err(DecodeError::UnexpectedEof)
    } else if bytes.take(4) != magic() {
        Err(DecodeError::BadMagic)
    } else {
        match Version::parse(bytes.skip(4)) {
            Err(_) => Err(DecodeError::UnexpectedEof),
            Ok((version, rest)) => if version.byte() != FORMAT_VERSION {
                Err(DecodeError::UnsupportedVersion(version.byte()))
            } else {
                Ok((version, rest))
            },
        }
    }
}

/// The tables of a session: their number in one byte, then the tables.
pub open spec fn parse_tables(bytes: Seq<u8>) -> Parsed<Seq<TableView>> {
    match parse_u8(bytes) {
        Err(e) => Err(e),
        Ok((count, rest)) => parse_each(|b: Seq<u8>| parse_table(b), count as nat, rest),
    }
}

/// A session: preamble, id, tables. Name and hero have no place in the
/// layout and come out empty.
pub open spec fn parse_session(bytes: Seq<u8>) -> Parsed<SessionView> {
    match parse_preamble(bytes) {
        Err(e) => Err(e),
        Ok((version, rest)) => match parse_u32(rest) {
            Err(e) => Err(e),
            Ok((id, rest)) => match parse_tables(rest) {
                Err(e) => Err(e),
                Ok((tables, rest)) => Ok(
                    (SessionView { version, id, name: Seq::empty(), tables, hero_id: 0 }, rest),
                ),
            },
        },
    }
}

/// The session that `bytes` starts with. Bytes after it are not looked at.
pub open spec fn decoding(bytes: Seq<u8>) -> Result<SessionView, DecodeError> {
    match parse_session(bytes) {
        Ok((s, _)) => Ok(s),
        Err(e) => Err(e),
    }
}

} // verus!
