//! From bytes to the session that they spell.

use crate::formats::heir_bin::exact::lemma_read_is_written;
use crate::formats::heir_bin::grammar::{
    decoding, lemma_nul_position, parse_action, parse_actions, parse_board, parse_card, parse_each,
    parse_event, parse_events, parse_hand, parse_location, parse_pair, parse_pairs, parse_player,
    parse_players, parse_preamble, parse_seat_update, parse_stack_update, parse_table,
    parse_tables, parse_u32, parse_u64, parse_u8, DecodeError,
};
use crate::formats::heir_bin::layout::{
    magic, session_encoding, session_fault, FORMAT_VERSION, TAG_HAND, TAG_SEAT_UPDATE,
    TAG_STACK_UPDATE,
};
use crate::model::{pair_view, Event, Hand, Player, SeatUpdate, Session, StackUpdate, Table};
use crate::types::action::{Action, ActionType};
use crate::types::board::{Board, BoardError};
use crate::types::card::Card;
use crate::types::version::Version;
use crate::wire::{read_u32, read_u64, read_u8};
use vstd::prelude::*;
use vstd::slice::{slice_subrange, slice_to_vec};
use vstd::utf8::{decode_utf8, valid_utf8};

verus! {

/// The error of `String::from_utf8` of std. Nothing is said of what it
/// holds: it is told apart from success and dropped.
#[verifier::external_type_specification]
#[verifier::external_body]
pub struct ExFromUtf8Error(std::string::FromUtf8Error);

/// `String::from_utf8` of std: it accepts exactly the byte vectors that are
/// UTF-8, and the string it then gives holds the characters that they spell.
pub assume_specification[ String::from_utf8 ](vec: Vec<u8>) -> (r: Result<
    String,
    std::string::FromUtf8Error,
>)
    ensures
        r.is_ok() <==> valid_utf8(vec@),
        r matches Ok(s) ==> s@ == decode_utf8(vec@),
;

fn get_u8(reader: &mut &[u8]) -> (r: Result<u8, DecodeError>)
    ensures
        match parse_u8(old(reader)@) {
            Ok((x, rest)) => r == Ok::<_, DecodeError>(x) && final(reader)@ == rest,
            Err(e) => r == Err::<u8, _>(e),
        },
{
    match read_u8(reader) {
        Some(x) => Ok(x),
        None => Err(DecodeError::UnexpectedEof),
    }
}

fn get_u32(reader: &mut &[u8]) -> (r: Result<u32, DecodeError>)
    ensures
        match parse_u32(old(reader)@) {
            Ok((x, rest)) => r == Ok::<_, DecodeError>(x) && final(reader)@ == rest,
            Err(e) => r == Err::<u32, _>(e),
        },
{
    match read_u32(reader) {
        Some(x) => Ok(x),
        None => Err(DecodeError::UnexpectedEof),
    }
}

fn get_u64(reader: &mut &[u8]) -> (r: Result<u64, DecodeError>)
    ensures
        match parse_u64(old(reader)@) {
            Ok((x, rest)) => r == Ok::<_, DecodeError>(x) && final(reader)@ == rest,
            Err(e) => r == Err::<u64, _>(e),
        },
{
    match read_u64(reader) {
        Some(x) => Ok(x),
        None => Err(DecodeError::UnexpectedEof),
    }
}

fn read_card(reader: &mut &[u8]) -> (r: Result<Card, DecodeError>)
    ensures
        match parse_card(old(reader)@) {
            Ok((c, rest)) => r == Ok::<_, DecodeError>(c) && final(reader)@ == rest,
            Err(e) => r == Err::<Card, _>(e),
        },
{
    let tag = get_u8(reader)?;
    match Card::from_u8(tag) {
        Ok(card) => Ok(card),
        Err(e) => Err(DecodeError::Card(e)),
    }
}

fn read_pair(reader: &mut &[u8]) -> (r: Result<[Card; 2], DecodeError>)
    ensures
        match parse_pair(old(reader)@) {
            Ok((p, rest)) => r matches Ok(pair) && pair_view(pair) == p && final(reader)@
                == rest,
            Err(e) => r == Err::<[Card; 2], _>(e),
        },
{
    let first = read_card(reader)?;
    let second = read_card(reader)?;
    Ok([first, second])
}

fn read_action(reader: &mut &[u8]) -> (r: Result<Action, DecodeError>)
    ensures
        match parse_action(old(reader)@) {
            Ok((a, rest)) => r == Ok::<_, DecodeError>(a) && final(reader)@ == rest,
            Err(e) => r == Err::<Action, _>(e),
        },
{
    let code = get_u8(reader)?;
    let kind = match ActionType::from_u8(code) {
        Ok(kind) => kind,
        Err(e) => {
            return Err(DecodeError::Action(e));
        },
    };
    let cents = get_u32(reader)?;
    match Action::new(kind, cents) {
        Ok(action) => Ok(action),
        Err(e) => Err(DecodeError::Action(e)),
    }
}

fn read_board(reader: &mut &[u8]) -> (r: Result<Board, DecodeError>)
    ensures
        match parse_board(old(reader)@) {
            Ok((b, rest)) => r == Ok::<_, DecodeError>(b) && final(reader)@ == rest,
            Err(e) => r == Err::<Board, _>(e),
        },
{
    match Board::deserialize(reader) {
        Ok(board) => Ok(board),
        Err(BoardError::InvalidCard(e)) => Err(DecodeError::Card(e)),
        Err(_) => Err(DecodeError::UnexpectedEof),
    }
}

fn read_player(reader: &mut &[u8]) -> (r: Result<Player, DecodeError>)
    ensures
        match parse_player(old(reader)@) {
            Ok((p, rest)) => r matches Ok(player) && player@ == p && final(reader)@ == rest,
            Err(e) => r == Err::<Player, _>(e),
        },
{
    let id = get_u32(reader)?;
    let stack = get_u32(reader)?;
    Ok(Player { id, name: String::new(), stack })
}

fn read_pairs(reader: &mut &[u8]) -> (r: Result<Vec<[Card; 2]>, DecodeError>)
    ensures
        match parse_pairs(old(reader)@) {
            Ok((ps, rest)) => r matches Ok(pairs) && pairs@.map_values(
                |pair: [Card; 2]| pair_view(pair),
            ) == ps && final(reader)@ == rest,
            Err(e) => r == Err::<Vec<[Card; 2]>, _>(e),
        },
{
    let count = get_u8(reader)? as usize;
    let ghost start = reader@;
    let mut pairs: Vec<[Card; 2]> = Vec::new();
    let mut i: usize = 0;
    assert(pairs@.map_values(|pair: [Card; 2]| pair_view(pair)) =~= Seq::empty());
    while i < count
        invariant
            0 <= i <= count,
            parse_pairs(old(reader)@) == parse_each(
                |b: Seq<u8>| parse_pair(b),
                count as nat,
                start,
            ),
            parse_each(|b: Seq<u8>| parse_pair(b), count as nat, start) == (match parse_each(
                |b: Seq<u8>| parse_pair(b),
                (count - i) as nat,
                reader@,
            ) {
                Ok((xs, rest)) => Ok(
                    (pairs@.map_values(|pair: [Card; 2]| pair_view(pair)) + xs, rest),
                ),
                Err(e) => Err(e),
            }),
        decreases count - i,
    {
        let ghost before = reader@;
        let ghost seen = pairs@.map_values(|pair: [Card; 2]| pair_view(pair));
        let pair = read_pair(reader)?;
        pairs.push(pair);
        proof {
            let now = pairs@.map_values(|pair: [Card; 2]| pair_view(pair));
            assert(now =~= seen.push(pair_view(pair)));
            match parse_each(|b: Seq<u8>| parse_pair(b), (count - i - 1) as nat, reader@) {
                Ok((xs, rest)) => {
                    assert(seen + (seq![pair_view(pair)] + xs) =~= now + xs);
                },
                Err(_) => {},
            }
        }
        i += 1;
    }
    assert(pairs@.map_values(|pair: [Card; 2]| pair_view(pair)) + Seq::empty() =~= pairs@.map_values(
        |pair: [Card; 2]| pair_view(pair),
    ));
    Ok(pairs)
}

fn read_actions(reader: &mut &[u8]) -> (r: Result<Vec<Action>, DecodeError>)
    ensures
        match parse_actions(old(reader)@) {
            Ok((xs, rest)) => r matches Ok(items) && items@ == xs && final(reader)@
                == rest,
            Err(e) => r == Err::<Vec<Action>, _>(e),
        },
{
    let count = get_u8(reader)? as usize;
    let ghost start = reader@;
    let mut items: Vec<Action> = Vec::new();
    let mut i: usize = 0;
    assert(items@ =~= Seq::empty());
    while i < count
        invariant
            0 <= i <= count,
            parse_actions(old(reader)@) == parse_each(
                |b: Seq<u8>| parse_action(b),
                count as nat,
                start,
            ),
            parse_each(|b: Seq<u8>| parse_action(b), count as nat, start) == (match parse_each(
                |b: Seq<u8>| parse_action(b),
                (count - i) as nat,
                reader@,
            ) {
                Ok((xs, rest)) => Ok((items@ + xs, rest)),
                Err(e) => Err(e),
            }),
        decreases count - i,
    {
        let ghost seen = items@;
        let item = read_action(reader)?;
        let ghost view = item;
        items.push(item);
        proof {
            let now = items@;
            assert(now =~= seen.push(view));
            match parse_each(|b: Seq<u8>| parse_action(b), (count - i - 1) as nat, reader@) {
                Ok((xs, rest)) => {
                    assert(seen + (seq![view] + xs) =~= now + xs);
                },
                Err(_) => {},
            }
        }
        i += 1;
    }
    assert(items@ + Seq::empty() =~= items@);
    Ok(items)
}

fn read_players(reader: &mut &[u8]) -> (r: Result<Vec<Player>, DecodeError>)
    ensures
        match parse_players(old(reader)@) {
            Ok((xs, rest)) => r matches Ok(items) && items@.map_values(|p: Player| p@) == xs && final(reader)@
                == rest,
            Err(e) => r == Err::<Vec<Player>, _>(e),
        },
{
    let count = get_u8(reader)? as usize;
    let ghost start = reader@;
    let mut items: Vec<Player> = Vec::new();
    let mut i: usize = 0;
    assert(items@.map_values(|p: Player| p@) =~= Seq::empty());
    while i < count
        invariant
            0 <= i <= count,
            parse_players(old(reader)@) == parse_each(
                |b: Seq<u8>| parse_player(b),
                count as nat,
                start,
            ),
            parse_each(|b: Seq<u8>| parse_player(b), count as nat, start) == (match parse_each(
                |b: Seq<u8>| parse_player(b),
                (count - i) as nat,
                reader@,
            ) {
                Ok((xs, rest)) => Ok((items@.map_values(|p: Player| p@) + xs, rest)),
                Err(e) => Err(e),
            }),
        decreases count - i,
    {
        let ghost seen = items@.map_values(|p: Player| p@);
        let item = read_player(reader)?;
        let ghost view = item@;
        items.push(item);
        proof {
            let now = items@.map_values(|p: Player| p@);
            assert(now =~= seen.push(view));
            match parse_each(|b: Seq<u8>| parse_player(b), (count - i - 1) as nat, reader@) {
                Ok((xs, rest)) => {
                    assert(seen + (seq![view] + xs) =~= now + xs);
                },
                Err(_) => {},
            }
        }
        i += 1;
    }
    assert(items@.map_values(|p: Player| p@) + Seq::empty() =~= items@.map_values(|p: Player| p@));
    Ok(items)
}

fn read_hand(reader: &mut &[u8]) -> (r: Result<Hand, DecodeError>)
    ensures
        match parse_hand(old(reader)@) {
            Ok((h, rest)) => r matches Ok(hand) && hand@ == h && final(reader)@ == rest,
            Err(e) => r == Err::<Hand, _>(e),
        },
{
    let id = get_u32(reader)?;
    let button_position = get_u8(reader)?;
    let hole_cards = read_pairs(reader)?;
    let actions = read_actions(reader)?;
    let timestamp = get_u64(reader)?;
    let board = read_board(reader)?;
    Ok(Hand { id, button_position, hole_cards, actions, timestamp, board })
}

fn read_stack_update(reader: &mut &[u8]) -> (r: Result<StackUpdate, DecodeError>)
    ensures
        match parse_stack_update(old(reader)@) {
            Ok((u, rest)) => r == Ok::<_, DecodeError>(u) && final(reader)@ == rest,
            Err(e) => r == Err::<StackUpdate, _>(e),
        },
{
    let seat = get_u8(reader)?;
    let stack = get_u32(reader)?;
    Ok(StackUpdate { seat, stack })
}

fn read_seat_update(reader: &mut &[u8]) -> (r: Result<SeatUpdate, DecodeError>)
    ensures
        match parse_seat_update(old(reader)@) {
            Ok((u, rest)) => r matches Ok(update) && update@ == u && final(reader)@ == rest,
            Err(e) => r == Err::<SeatUpdate, _>(e),
        },
{
    let seat = get_u8(reader)?;
    let flag = get_u8(reader)?;
    if flag == 0 {
        Ok(SeatUpdate { seat, player: None })
    } else if flag == 1 {
        let player = read_player(reader)?;
        Ok(SeatUpdate { seat, player: Some(player) })
    } else {
        Err(DecodeError::InvalidPresenceFlag(flag))
    }
}

fn read_event(reader: &mut &[u8]) -> (r: Result<Event, DecodeError>)
    ensures
        match parse_event(old(reader)@) {
            Ok((v, rest)) => r matches Ok(event) && event@ == v && final(reader)@ == rest,
            Err(e) => r == Err::<Event, _>(e),
        },
{
    let tag = get_u8(reader)?;
    if tag == TAG_HAND {
        let hand = read_hand(reader)?;
        Ok(Event::Hand(hand))
    } else if tag == TAG_STACK_UPDATE {
        let update = read_stack_update(reader)?;
        Ok(Event::StackUpdate(update))
    } else if tag == TAG_SEAT_UPDATE {
        let update = read_seat_update(reader)?;
        Ok(Event::SeatUpdate(update))
    } else {
        Err(DecodeError::InvalidEventTag(tag))
    }
}

fn read_events(reader: &mut &[u8]) -> (r: Result<Vec<Event>, DecodeError>)
    ensures
        match parse_events(old(reader)@) {
            Ok((xs, rest)) => r matches Ok(items) && items@.map_values(|e: Event| e@) == xs && final(reader)@
                == rest,
            Err(e) => r == Err::<Vec<Event>, _>(e),
        },
{
    let count = get_u32(reader)? as usize;
    let ghost start = reader@;
    let mut items: Vec<Event> = Vec::new();
    let mut i: usize = 0;
    assert(items@.map_values(|e: Event| e@) =~= Seq::empty());
    while i < count
        invariant
            0 <= i <= count,
            parse_events(old(reader)@) == parse_each(
                |b: Seq<u8>| parse_event(b),
                count as nat,
                start,
            ),
            parse_each(|b: Seq<u8>| parse_event(b), count as nat, start) == (match parse_each(
                |b: Seq<u8>| parse_event(b),
                (count - i) as nat,
                reader@,
            ) {
                Ok((xs, rest)) => Ok((items@.map_values(|e: Event| e@) + xs, rest)),
                Err(e) => Err(e),
            }),
        decreases count - i,
    {
        let ghost seen = items@.map_values(|e: Event| e@);
        let item = read_event(reader)?;
        let ghost view = item@;
        items.push(item);
        proof {
            let now = items@.map_values(|e: Event| e@);
            assert(now =~= seen.push(view));
            match parse_each(|b: Seq<u8>| parse_event(b), (count - i - 1) as nat, reader@) {
                Ok((xs, rest)) => {
                    assert(seen + (seq![view] + xs) =~= now + xs);
                },
                Err(_) => {},
            }
        }
        i += 1;
    }
    assert(items@.map_values(|e: Event| e@) + Seq::empty() =~= items@.map_values(|e: Event| e@));
    Ok(items)
}

fn read_location(reader: &mut &[u8]) -> (r: Result<String, DecodeError>)
    ensures
        match parse_location(old(reader)@) {
            Ok((l, rest)) => r matches Ok(location) && location@ == l && final(reader)@
                == rest,
            Err(e) => r == Err::<String, _>(e),
        },
{
    let bytes = *reader;
    let mut n: usize = 0;
    loop
        invariant
            0 <= n <= bytes.len(),
            bytes@ == old(reader)@,
            forall|j: int| 0 <= j < n ==> bytes@[j] != 0,
        ensures
            n < bytes.len(),
            bytes@[n as int] == 0,
        decreases bytes.len() - n,
    {
        if n >= bytes.len() {
            proof {
                lemma_nul_position(bytes@, n as int);
            }
            return Err(DecodeError::UnexpectedEof);
        }
        if bytes[n] == 0 {
            break ;
        }
        n += 1;
    }
    proof {
        lemma_nul_position(bytes@, n as int);
    }
    let body = slice_to_vec(slice_subrange(bytes, 0, n));
    assert(body@ =~= bytes@.take(n as int));
    *reader = slice_subrange(bytes, n + 1, bytes.len());
    match String::from_utf8(body) {
        Ok(location) => Ok(location),
        Err(_) => Err(DecodeError::InvalidUtf8),
    }
}

fn read_table(reader: &mut &[u8]) -> (r: Result<Table, DecodeError>)
    ensures
        match parse_table(old(reader)@) {
            Ok((t, rest)) => r matches Ok(table) && table@ == t && final(reader)@ == rest,
            Err(e) => r == Err::<Table, _>(e),
        },
{
    let id = get_u32(reader)?;
    let location = read_location(reader)?;
    let table_size = get_u8(reader)?;
    let initial_context = read_players(reader)?;
    let events = read_events(reader)?;
    Ok(
        Table {
            id,
            name: String::new(),
            location,
            table_size,
            rake_percentage: 0,
            rake_cap: 0,
            blinds: Vec::new(),
            initial_context,
            events,
        },
    )
}

fn read_tables(reader: &mut &[u8]) -> (r: Result<Vec<Table>, DecodeError>)
    ensures
        match parse_tables(old(reader)@) {
            Ok((xs, rest)) => r matches Ok(items) && items@.map_values(|t: Table| t@) == xs && final(reader)@
                == rest,
            Err(e) => r == Err::<Vec<Table>, _>(e),
        },
{
    let count = get_u8(reader)? as usize;
    let ghost start = reader@;
    let mut items: Vec<Table> = Vec::new();
    let mut i: usize = 0;
    assert(items@.map_values(|t: Table| t@) =~= Seq::empty());
    while i < count
        invariant
            0 <= i <= count,
            parse_tables(old(reader)@) == parse_each(
                |b: Seq<u8>| parse_table(b),
                count as nat,
                start,
            ),
            parse_each(|b: Seq<u8>| parse_table(b), count as nat, start) == (match parse_each(
                |b: Seq<u8>| parse_table(b),
                (count - i) as nat,
                reader@,
            ) {
                Ok((xs, rest)) => Ok((items@.map_values(|t: Table| t@) + xs, rest)),
                Err(e) => Err(e),
            }),
        decreases count - i,
    {
        let ghost seen = items@.map_values(|t: Table| t@);
        let item = read_table(reader)?;
        let ghost view = item@;
        items.push(item);
        proof {
            let now = items@.map_values(|t: Table| t@);
            assert(now =~= seen.push(view));
            match parse_each(|b: Seq<u8>| parse_table(b), (count - i - 1) as nat, reader@) {
                Ok((xs, rest)) => {
                    assert(seen + (seq![view] + xs) =~= now + xs);
                },
                Err(_) => {},
            }
        }
        i += 1;
    }
    assert(items@.map_values(|t: Table| t@) + Seq::empty() =~= items@.map_values(|t: Table| t@));
    Ok(items)
}

fn read_preamble(reader: &mut &[u8]) -> (r: Result<Version, DecodeError>)
    ensures
        match parse_preamble(old(reader)@) {
            Ok((v, rest)) => r == Ok::<_, DecodeError>(v) && final(reader)@ == rest,
            Err(e) => r == Err::<Version, _>(e),
        },
{
    let bytes = *reader;
    if bytes.len() < 4 {
        return Err(DecodeError::UnexpectedEof);
    }
    if bytes[0] != 0x48 || bytes[1] != 0x45 || bytes[2] != 0x49 || bytes[3] != 0x52 {
        assert(bytes@.take(4)[0] == bytes@[0] && bytes@.take(4)[1] == bytes@[1] && bytes@.take(
            4,
        )[2] == bytes@[2] && bytes@.take(4)[3] == bytes@[3]);
        return Err(DecodeError::BadMagic);
    }
    assert(bytes@.take(4) =~= magic());
    *reader = slice_subrange(bytes, 4, bytes.len());
    match Version::deserialize(reader) {
        Ok(version) => {
            let byte = version.to_u8();
            if byte != FORMAT_VERSION {
                Err(DecodeError::UnsupportedVersion(byte))
            } else {
                Ok(version)
            }
        },
        Err(_) => Err(DecodeError::UnexpectedEof),
    }
}

/// Reads the session that `bytes` starts with. The first thing that is wrong
/// ends the reading: bytes that run out, a wrong magic number or version, a
/// location that is not UTF-8, an event tag or a presence flag that means
/// nothing, a card, a kind of action or a bet size out of range. Bytes after
/// the session are not looked at.
///
/// A session that comes out is one whose bytes `bytes` starts with: one
/// that the format has room for, with nothing in it but what the layout has
/// a place for.
pub fn decode(bytes: &[u8]) -> (r: Result<Session, DecodeError>)
    ensures
        match decoding(bytes@) {
            Ok(s) => r matches Ok(session) && session@ == s,
            Err(e) => r == Err::<Session, _>(e),
        },
        r matches Ok(session) ==> session_encoding(session@).is_prefix_of(bytes@)
            && session_fault(session@).is_none() && session@.valid() && session@.stored()
            == session@,
{
    proof {
        lemma_read_is_written(bytes@);
    }
    let mut reader = bytes;
    let version = read_preamble(&mut reader)?;
    let id = get_u32(&mut reader)?;
    let tables = read_tables(&mut reader)?;
    Ok(Session { version, id, name: String::new(), tables, hero_id: 0 })
}

} // verus!
