//! From a session to its bytes.

use crate::formats::heir_bin::grammar::{decoding, DecodeError};
use crate::formats::heir_bin::laws::lemma_round_trip_stored;
use crate::formats::heir_bin::layout::{
    action_encoding, actions_encoding, event_encoding, event_fault, events_encoding,
    events_fault, hand_encoding, hand_fault, header_encoding, lemma_encoding_of_each_push,
    lemma_first_fault_prefix, lemma_first_fault_push, lemma_nul_free_text, location_encoding,
    nul_free, pair_encoding, pairs_encoding, player_encoding, players_encoding,
    session_encoding, session_fault, table_encoding, table_fault, tables_encoding,
    tables_fault, EncodeError, FORMAT_VERSION, MAX_EVENT_COUNT, MAX_SHORT_COUNT, TAG_HAND,
    TAG_SEAT_UPDATE, TAG_STACK_UPDATE,
};
use crate::model::{
    pair_view, Event, EventView, Hand, Player, PlayerView, Session, Table, TableView,
};
use crate::types::action::Action;
use crate::types::card::Card;
use crate::wire::{u32_le, write_u32, write_u64};
use vstd::prelude::*;
use vstd::string::*;
use vstd::utf8::encode_utf8;

verus! {

fn put(writer: &mut Vec<u8>, byte: u8)
    ensures
        final(writer)@ == old(writer)@ + seq![byte],
{
    writer.push(byte);
    assert(writer@ =~= old(writer)@ + seq![byte]);
}

fn write_player(writer: &mut Vec<u8>, player: &Player)
    ensures
        final(writer)@ == old(writer)@ + player_encoding(player@),
{
    write_u32(writer, player.id);
    write_u32(writer, player.stack);
    assert(writer@ =~= old(writer)@ + player_encoding(player@));
}

fn write_action(writer: &mut Vec<u8>, action: &Action)
    ensures
        final(writer)@ == old(writer)@ + action_encoding(*action),
{
    put(writer, action.action_type().to_u8());
    write_u32(writer, action.cents());
    assert(writer@ =~= old(writer)@ + action_encoding(*action));
}

fn write_pairs(writer: &mut Vec<u8>, pairs: &Vec<[Card; 2]>)
    requires
        pairs.len() <= MAX_SHORT_COUNT,
    ensures
        final(writer)@ == old(writer)@ + seq![pairs.len() as u8] + pairs_encoding(
            pairs@.map_values(|pair: [Card; 2]| pair_view(pair)),
        ),
{
    let ghost views = pairs@.map_values(|pair: [Card; 2]| pair_view(pair));
    put(writer, pairs.len() as u8);
    let ghost start = writer@;
    let mut i: usize = 0;
    assert(views.take(0) =~= Seq::empty());
    while i < pairs.len()
        invariant
            0 <= i <= pairs.len(),
            views == pairs@.map_values(|pair: [Card; 2]| pair_view(pair)),
            writer@ == start + pairs_encoding(views.take(i as int)),
        decreases pairs.len() - i,
    {
        let pair = &pairs[i];
        put(writer, pair[0].to_u8());
        put(writer, pair[1].to_u8());
        proof {
            assert(views.take(i + 1) =~= views.take(i as int).push(views[i as int]));
            lemma_encoding_of_each_push(
                |pair: (Card, Card)| pair_encoding(pair),
                views.take(i as int),
                views[i as int],
            );
            assert(writer@ =~= start + pairs_encoding(views.take(i + 1)));
        }
        i += 1;
    }
    assert(views.take(pairs.len() as int) =~= views);
}

fn write_actions(writer: &mut Vec<u8>, actions: &Vec<Action>)
    requires
        actions.len() <= MAX_SHORT_COUNT,
    ensures
        final(writer)@ == old(writer)@ + seq![actions.len() as u8] + actions_encoding(actions@),
{
    put(writer, actions.len() as u8);
    let ghost start = writer@;
    let mut i: usize = 0;
    assert(actions@.take(0) =~= Seq::empty());
    while i < actions.len()
        invariant
            0 <= i <= actions.len(),
            writer@ == start + actions_encoding(actions@.take(i as int)),
        decreases actions.len() - i,
    {
        write_action(writer, &actions[i]);
        proof {
            assert(actions@.take(i + 1) =~= actions@.take(i as int).push(actions@[i as int]));
            lemma_encoding_of_each_push(
                |a: Action| action_encoding(a),
                actions@.take(i as int),
                actions@[i as int],
            );
            assert(writer@ =~= start + actions_encoding(actions@.take(i + 1)));
        }
        i += 1;
    }
    assert(actions@.take(actions.len() as int) =~= actions@);
}

fn write_hand(writer: &mut Vec<u8>, hand: &Hand) -> (r: Result<(), EncodeError>)
    ensures
        match hand_fault(hand@) {
            Some(e) => r == Err::<(), _>(e),
            None => r.is_ok() && final(writer)@ == old(writer)@ + hand_encoding(hand@)
                && hand@.valid(),
        },
{
    if hand.hole_cards.len() > MAX_SHORT_COUNT {
        return Err(EncodeError::TooManyHoleCards(hand.hole_cards.len()));
    }
    if hand.actions.len() > MAX_SHORT_COUNT {
        return Err(EncodeError::TooManyActions(hand.actions.len()));
    }
    write_u32(writer, hand.id);
    put(writer, hand.button_position);
    write_pairs(writer, &hand.hole_cards);
    write_actions(writer, &hand.actions);
    write_u64(writer, hand.timestamp);
    hand.board.serialize(writer);
    assert(writer@ =~= old(writer)@ + hand_encoding(hand@));
    Ok(())
}

fn write_event(writer: &mut Vec<u8>, event: &Event) -> (r: Result<(), EncodeError>)
    ensures
        match event_fault(event@) {
            Some(e) => r == Err::<(), _>(e),
            None => r.is_ok() && final(writer)@ == old(writer)@ + event_encoding(event@)
                && event@.valid(),
        },
{
    match event {
        Event::Hand(hand) => {
            put(writer, TAG_HAND);
            write_hand(writer, hand)?;
            assert(writer@ =~= old(writer)@ + event_encoding(event@));
        },
        Event::StackUpdate(update) => {
            put(writer, TAG_STACK_UPDATE);
            put(writer, update.seat);
            write_u32(writer, update.stack);
            assert(writer@ =~= old(writer)@ + event_encoding(event@));
        },
        Event::SeatUpdate(update) => {
            put(writer, TAG_SEAT_UPDATE);
            put(writer, update.seat);
            match &update.player {
                Some(player) => {
                    put(writer, 1);
                    write_player(writer, player);
                },
                None => {
                    put(writer, 0);
                },
            }
            assert(writer@ =~= old(writer)@ + event_encoding(event@));
        },
    }
    Ok(())
}

fn write_location(writer: &mut Vec<u8>, location: &String) -> (r: Result<(), EncodeError>)
    ensures
        nul_free(encode_utf8(location@)) ==> r.is_ok() && final(writer)@ == old(writer)@
            + location_encoding(location@),
        !nul_free(encode_utf8(location@)) ==> r == Err::<(), _>(EncodeError::NulInLocation),
{
    let bytes = location.as_str().as_bytes();
    let mut i: usize = 0;
    assert(bytes@.take(0) =~= Seq::empty());
    while i < bytes.len()
        invariant
            0 <= i <= bytes.len(),
            bytes@ == encode_utf8(location@),
            nul_free(bytes@.take(i as int)),
            writer@ == old(writer)@ + bytes@.take(i as int),
        decreases bytes.len() - i,
    {
        let byte = bytes[i];
        if byte == 0 {
            return Err(EncodeError::NulInLocation);
        }
        writer.push(byte);
        assert(bytes@.take(i + 1) =~= bytes@.take(i as int).push(byte));
        assert(writer@ =~= old(writer)@ + bytes@.take(i + 1));
        i += 1;
    }
    assert(bytes@.take(bytes.len() as int) =~= bytes@);
    put(writer, 0);
    assert(writer@ =~= old(writer)@ + location_encoding(location@));
    Ok(())
}

fn write_players(writer: &mut Vec<u8>, players: &Vec<Player>)
    requires
        players.len() <= MAX_SHORT_COUNT,
    ensures
        final(writer)@ == old(writer)@ + seq![players.len() as u8] + players_encoding(
            players@.map_values(|p: Player| p@),
        ),
{
    let ghost views = players@.map_values(|p: Player| p@);
    put(writer, players.len() as u8);
    let ghost start = writer@;
    let mut i: usize = 0;
    assert(views.take(0) =~= Seq::empty());
    while i < players.len()
        invariant
            0 <= i <= players.len(),
            views == players@.map_values(|p: Player| p@),
            writer@ == start + players_encoding(views.take(i as int)),
        decreases players.len() - i,
    {
        write_player(writer, &players[i]);
        proof {
            assert(views.take(i + 1) =~= views.take(i as int).push(views[i as int]));
            lemma_encoding_of_each_push(
                |p: PlayerView| player_encoding(p),
                views.take(i as int),
                views[i as int],
            );
            assert(writer@ =~= start + players_encoding(views.take(i + 1)));
        }
        i += 1;
    }
    assert(views.take(players.len() as int) =~= views);
}

fn write_events(writer: &mut Vec<u8>, events: &Vec<Event>) -> (r: Result<(), EncodeError>)
    requires
        events.len() <= MAX_EVENT_COUNT,
    ensures
        match events_fault(events@.map_values(|e: Event| e@)) {
            Some(e) => r == Err::<(), _>(e),
            None => r.is_ok() && final(writer)@ == old(writer)@ + u32_le(events.len() as u32)
                + events_encoding(events@.map_values(|e: Event| e@)) && forall|i: int|
                0 <= i < events.len() ==> (#[trigger] events[i])@.valid(),
        },
{
    let ghost views = events@.map_values(|e: Event| e@);
    write_u32(writer, events.len() as u32);
    let ghost start = writer@;
    let mut i: usize = 0;
    assert(views.take(0) =~= Seq::empty());
    while i < events.len()
        invariant
            0 <= i <= events.len(),
            views == events@.map_values(|e: Event| e@),
            events_fault(views.take(i as int)).is_none(),
            writer@ == start + events_encoding(views.take(i as int)),
            forall|j: int| 0 <= j < i ==> (#[trigger] events[j])@.valid(),
        decreases events.len() - i,
    {
        proof {
            assert(views.take(i + 1) =~= views.take(i as int).push(views[i as int]));
            lemma_encoding_of_each_push(
                |e: EventView| event_encoding(e),
                views.take(i as int),
                views[i as int],
            );
            lemma_first_fault_push(
                |e: EventView| event_fault(e),
                views.take(i as int),
                views[i as int],
            );
            if events_fault(views.take(i + 1)).is_some() {
                lemma_first_fault_prefix(|e: EventView| event_fault(e), views, i + 1);
            }
        }
        write_event(writer, &events[i])?;
        assert(writer@ =~= start + events_encoding(views.take(i + 1)));
        i += 1;
    }
    assert(views.take(events.len() as int) =~= views);
    Ok(())
}

fn write_table(writer: &mut Vec<u8>, table: &Table) -> (r: Result<(), EncodeError>)
    ensures
        match table_fault(table@) {
            Some(e) => r == Err::<(), _>(e),
            None => r.is_ok() && final(writer)@ == old(writer)@ + table_encoding(table@)
                && table@.valid(),
        },
{
    proof {
        lemma_nul_free_text(table.location@);
    }
    write_u32(writer, table.id);
    write_location(writer, &table.location)?;
    put(writer, table.table_size);
    if table.initial_context.len() > MAX_SHORT_COUNT {
        return Err(EncodeError::TooManyPlayers(table.initial_context.len()));
    }
    write_players(writer, &table.initial_context);
    if table.events.len() > MAX_EVENT_COUNT {
        return Err(EncodeError::TooManyEvents(table.events.len()));
    }
    write_events(writer, &table.events)?;
    assert(writer@ =~= old(writer)@ + table_encoding(table@));
    Ok(())
}

/// Writes `session` out. Fails, with what is wrong first, on a session that
/// the format has no room for: one of another version, one with a list too
/// long for its count, one with the character zero in a location. What it
/// writes reads back as the session as the format keeps it.
pub fn encode(session: &Session) -> (r: Result<Vec<u8>, EncodeError>)
    ensures
        match session_fault(session@) {
            Some(e) => r == Err::<Vec<u8>, _>(e),
            None => r matches Ok(bytes) && bytes@ == session_encoding(session@)
                && session@.valid() && decoding(bytes@) == Ok::<_, DecodeError>(
                session@.stored(),
            ),
        },
{
    let version = session.version.to_u8();
    if version != FORMAT_VERSION {
        return Err(EncodeError::UnsupportedVersion(version));
    }
    let tables = &session.tables;
    if tables.len() > MAX_SHORT_COUNT {
        return Err(EncodeError::TooManyTables(tables.len()));
    }
    let mut writer: Vec<u8> = Vec::new();
    writer.push(0x48);
    writer.push(0x45);
    writer.push(0x49);
    writer.push(0x52);
    session.version.serialize(&mut writer);
    write_u32(&mut writer, session.id);
    put(&mut writer, tables.len() as u8);
    assert(writer@ =~= header_encoding(session@));
    let ghost views = tables@.map_values(|t: Table| t@);
    let mut i: usize = 0;
    assert(views.take(0) =~= Seq::empty());
    while i < tables.len()
        invariant
            0 <= i <= tables.len() <= MAX_SHORT_COUNT,
            session.version.byte() == FORMAT_VERSION,
            *tables == session.tables,
            views == tables@.map_values(|t: Table| t@),
            tables_fault(views.take(i as int)).is_none(),
            writer@ == header_encoding(session@) + tables_encoding(views.take(i as int)),
            forall|j: int| 0 <= j < i ==> (#[trigger] tables[j])@.valid(),
        decreases tables.len() - i,
    {
        proof {
            assert(views.take(i + 1) =~= views.take(i as int).push(views[i as int]));
            lemma_encoding_of_each_push(
                |t: TableView| table_encoding(t),
                views.take(i as int),
                views[i as int],
            );
            lemma_first_fault_push(
                |t: TableView| table_fault(t),
                views.take(i as int),
                views[i as int],
            );
            if tables_fault(views.take(i + 1)).is_some() {
                lemma_first_fault_prefix(|t: TableView| table_fault(t), views, i + 1);
            }
        }
        write_table(&mut writer, &tables[i])?;
        assert(writer@ =~= header_encoding(session@) + tables_encoding(views.take(i + 1)));
        i += 1;
    }
    assert(views.take(tables.len() as int) =~= views);
    proof {
        assert forall|j: int| 0 <= j < views.len() implies (#[trigger] views[j]).valid() by {
            assert(tables[j]@.valid());
        }
        lemma_round_trip_stored(session@, Seq::empty());
    }
    Ok(writer)
}

} // verus!
