//! The other direction: bytes that read as a session start with the very
//! bytes that this session is written as. So the grammar accepts nothing
//! but what the layout describes, and what was read is a session that the
//! format has room for and keeps whole.

use crate::formats::heir_bin::grammar::{
    decoding, lemma_nul_position_found, nul_position, parse_action, parse_actions, parse_board,
    parse_card, parse_each, parse_event, parse_events, parse_hand, parse_location, parse_pair,
    parse_pairs, parse_player, parse_players, parse_preamble, parse_session, parse_table,
    parse_tables, parse_u32, parse_u64, parse_u8, Parsed,
};
use crate::formats::heir_bin::laws::lemma_round_trip_stored;
use crate::formats::heir_bin::layout::{
    action_encoding, actions_encoding, encoding_of_each, event_encoding, event_fault,
    events_encoding, events_fault, hand_encoding, hand_fault, lemma_first_fault_of_none,
    lemma_nul_free_text, location_encoding, pair_encoding,
    pairs_encoding, player_encoding, players_encoding, session_encoding, session_fault,
    table_encoding, table_fault, tables_encoding, tables_fault, MAX_EVENT_COUNT,
    MAX_SHORT_COUNT,
};
use crate::model::{EventView, PlayerView, SessionView, TableView};
use crate::types::action::{Action, ActionType};
use crate::types::board::{lemma_valid_word, Board};
use crate::types::card::Card;
use crate::types::version::Version;
use crate::wire::{lemma_u32_from_le_bytes, lemma_u64_from_le_bytes, u32_le, u64_le};
use vstd::prelude::*;
use vstd::utf8::decode_utf8_encode_utf8;

verus! {

/// Whether what `dec` reads off `bytes`, if it reads anything, is written
/// by `enc` as the bytes that it was read from, and is `good`.
spec fn writes_back<T>(
    enc: spec_fn(T) -> Seq<u8>,
    dec: spec_fn(Seq<u8>) -> Parsed<T>,
    good: spec_fn(T) -> bool,
    bytes: Seq<u8>,
) -> bool {
    dec(bytes) matches Ok((x, rest)) ==> bytes == enc(x) + rest && good(x)
}

/// Joining is the same however it is grouped.
proof fn lemma_join(a: Seq<u8>, b: Seq<u8>, c: Seq<u8>)
    ensures
        a + (b + c) == a + b + c,
{
    assert(a + (b + c) =~= a + b + c);
}

proof fn lemma_written_u8(bytes: Seq<u8>)
    ensures
        parse_u8(bytes) matches Ok((x, rest)) ==> bytes == seq![x] + rest,
{
    if let Ok((x, rest)) = parse_u8(bytes) {
        assert(bytes =~= seq![x] + rest);
    }
}

proof fn lemma_written_u32(bytes: Seq<u8>)
    ensures
        parse_u32(bytes) matches Ok((x, rest)) ==> bytes == u32_le(x) + rest,
{
    if let Ok((x, rest)) = parse_u32(bytes) {
        lemma_u32_from_le_bytes(bytes);
        assert(bytes =~= bytes.take(4) + rest);
    }
}

proof fn lemma_written_u64(bytes: Seq<u8>)
    ensures
        parse_u64(bytes) matches Ok((x, rest)) ==> bytes == u64_le(x) + rest,
{
    if let Ok((x, rest)) = parse_u64(bytes) {
        lemma_u64_from_le_bytes(bytes);
        assert(bytes =~= bytes.take(8) + rest);
    }
}

proof fn lemma_written_card(bytes: Seq<u8>)
    ensures
        parse_card(bytes) matches Ok((c, rest)) ==> bytes == seq![c.tag()] + rest,
{
    lemma_written_u8(bytes);
    if let Ok((tag, _)) = parse_u8(bytes) {
        if tag <= 53 {
            Card::lemma_with_tag(tag);
        }
    }
}

proof fn lemma_written_pair(bytes: Seq<u8>)
    ensures
        parse_pair(bytes) matches Ok((pair, rest)) ==> bytes == pair_encoding(pair) + rest,
{
    lemma_written_card(bytes);
    if let Ok((first, after)) = parse_card(bytes) {
        lemma_written_card(after);
        if let Ok((second, rest)) = parse_card(after) {
            assert(bytes =~= pair_encoding((first, second)) + rest);
        }
    }
}

proof fn lemma_written_action(bytes: Seq<u8>)
    ensures
        parse_action(bytes) matches Ok((a, rest)) ==> bytes == action_encoding(a) + rest,
{
    lemma_written_u8(bytes);
    if let Ok((code, after)) = parse_u8(bytes) {
        lemma_written_u32(after);
        if let Ok((a, rest)) = parse_action(bytes) {
            let cents = parse_u32(after)->Ok_0.0;
            Action::lemma_pack(ActionType::with_code(code), cents);
            assert(ActionType::with_code(code).code() == code);
            assert(bytes =~= action_encoding(a) + rest);
        }
    }
}

proof fn lemma_written_board(bytes: Seq<u8>)
    ensures
        parse_board(bytes) matches Ok((b, rest)) ==> bytes == b.wire() + rest && b.valid(),
{
    if let Ok((b, rest)) = parse_board(bytes) {
        lemma_written_u32(bytes);
        let word = parse_u32(bytes)->Ok_0.0;
        Board::lemma_word_from_word(word);
        lemma_valid_word(word);
    }
}

proof fn lemma_written_player(bytes: Seq<u8>)
    ensures
        parse_player(bytes) matches Ok((p, rest)) ==> bytes == player_encoding(p) + rest
            && p.stored() == p,
{
    lemma_written_u32(bytes);
    if let Ok((id, after)) = parse_u32(bytes) {
        lemma_written_u32(after);
        if let Ok((p, rest)) = parse_player(bytes) {
            assert(bytes =~= player_encoding(p) + rest);
        }
    }
}

/// What is read as a list of `n` items is `n` items, each read from the
/// bytes that it is written as.
proof fn lemma_written_each<T>(
    enc: spec_fn(T) -> Seq<u8>,
    dec: spec_fn(Seq<u8>) -> Parsed<T>,
    good: spec_fn(T) -> bool,
    n: nat,
    bytes: Seq<u8>,
)
    requires
        forall|b: Seq<u8>| #[trigger] writes_back(enc, dec, good, b),
    ensures
        parse_each(dec, n, bytes) matches Ok((xs, rest)) ==> xs.len() == n && bytes
            == encoding_of_each(enc, xs) + rest && forall|i: int|
            0 <= i < xs.len() ==> good(#[trigger] xs[i]),
    decreases n,
{
    if n == 0 {
        assert(bytes =~= encoding_of_each(enc, Seq::<T>::empty()) + bytes);
    } else if let Ok((x, after)) = dec(bytes) {
        assert(writes_back(enc, dec, good, bytes));
        lemma_written_each(enc, dec, good, (n - 1) as nat, after);
        if let Ok((tail, rest)) = parse_each(dec, (n - 1) as nat, after) {
            let xs = seq![x] + tail;
            assert(xs.first() == x);
            assert(xs.drop_first() =~= tail);
            assert(bytes =~= encoding_of_each(enc, xs) + rest);
            assert forall|i: int| 0 <= i < xs.len() implies good(#[trigger] xs[i]) by {
                if i > 0 {
                    assert(xs[i] == tail[i - 1]);
                }
            }
        }
    }
}

proof fn lemma_written_pairs(bytes: Seq<u8>)
    ensures
        parse_pairs(bytes) matches Ok((pairs, rest)) ==> pairs.len() <= MAX_SHORT_COUNT && bytes
            == seq![pairs.len() as u8] + pairs_encoding(pairs) + rest,
{
    let enc = |pair: (Card, Card)| pair_encoding(pair);
    let dec = |b: Seq<u8>| parse_pair(b);
    let good = |pair: (Card, Card)| true;
    lemma_written_u8(bytes);
    if let Ok((count, after)) = parse_u8(bytes) {
        assert forall|b: Seq<u8>| #[trigger] writes_back(enc, dec, good, b) by {
            lemma_written_pair(b);
        }
        lemma_written_each(enc, dec, good, count as nat, after);
        if let Ok((pairs, rest)) = parse_pairs(bytes) {
            assert(bytes =~= seq![pairs.len() as u8] + pairs_encoding(pairs) + rest);
        }
    }
}

proof fn lemma_written_actions(bytes: Seq<u8>)
    ensures
        parse_actions(bytes) matches Ok((actions, rest)) ==> actions.len() <= MAX_SHORT_COUNT
            && bytes == seq![actions.len() as u8] + actions_encoding(actions) + rest,
{
    let enc = |a: Action| action_encoding(a);
    let dec = |b: Seq<u8>| parse_action(b);
    let good = |a: Action| true;
    lemma_written_u8(bytes);
    if let Ok((count, after)) = parse_u8(bytes) {
        assert forall|b: Seq<u8>| #[trigger] writes_back(enc, dec, good, b) by {
            lemma_written_action(b);
        }
        lemma_written_each(enc, dec, good, count as nat, after);
        if let Ok((actions, rest)) = parse_actions(bytes) {
            assert(bytes =~= seq![actions.len() as u8] + actions_encoding(actions) + rest);
        }
    }
}

proof fn lemma_written_players(bytes: Seq<u8>)
    ensures
        parse_players(bytes) matches Ok((players, rest)) ==> players.len() <= MAX_SHORT_COUNT
            && bytes == seq![players.len() as u8] + players_encoding(players) + rest
            && players.map_values(|p: PlayerView| p.stored()) == players,
{
    let enc = |p: PlayerView| player_encoding(p);
    let dec = |b: Seq<u8>| parse_player(b);
    let good = |p: PlayerView| p.stored() == p;
    lemma_written_u8(bytes);
    if let Ok((count, after)) = parse_u8(bytes) {
        assert forall|b: Seq<u8>| #[trigger] writes_back(enc, dec, good, b) by {
            lemma_written_player(b);
        }
        lemma_written_each(enc, dec, good, count as nat, after);
        if let Ok((players, rest)) = parse_players(bytes) {
            assert(bytes =~= seq![players.len() as u8] + players_encoding(players) + rest);
            assert forall|i: int| 0 <= i < players.len() implies players[i].stored()
                == players[i] by {
                assert(good(players[i]));
            }
            assert(players.map_values(|p: PlayerView| p.stored()) =~= players);
        }
    }
}

proof fn lemma_written_hand(bytes: Seq<u8>)
    ensures
        parse_hand(bytes) matches Ok((h, rest)) ==> bytes == hand_encoding(h) + rest
            && hand_fault(h).is_none() && h.valid(),
{
    if let Ok((h, rest)) = parse_hand(bytes) {
        lemma_written_u32(bytes);
        let t1 = parse_u32(bytes)->Ok_0.1;
        lemma_written_u8(t1);
        let t2 = parse_u8(t1)->Ok_0.1;
        lemma_written_pairs(t2);
        let t3 = parse_pairs(t2)->Ok_0.1;
        lemma_written_actions(t3);
        let t4 = parse_actions(t3)->Ok_0.1;
        lemma_written_u64(t4);
        let t5 = parse_u64(t4)->Ok_0.1;
        lemma_written_board(t5);
        assert(bytes =~= hand_encoding(h) + rest);
    }
}

/// An event that was read is one that the format has room for and keeps
/// whole.
spec fn event_kept(e: EventView) -> bool {
    event_fault(e).is_none() && e.valid() && e.stored() == e
}

proof fn lemma_written_event(bytes: Seq<u8>)
    ensures
        parse_event(bytes) matches Ok((e, rest)) ==> bytes == event_encoding(e) + rest
            && event_kept(e),
{
    if let Ok((e, rest)) = parse_event(bytes) {
        lemma_written_u8(bytes);
        let t1 = parse_u8(bytes)->Ok_0.1;
        match e {
            EventView::Hand(h) => {
                lemma_written_hand(t1);
                assert(bytes =~= event_encoding(e) + rest);
            },
            EventView::StackUpdate(u) => {
                lemma_written_u8(t1);
                let t2 = parse_u8(t1)->Ok_0.1;
                lemma_written_u32(t2);
                assert(bytes =~= event_encoding(e) + rest);
            },
            EventView::SeatUpdate(u) => {
                lemma_written_u8(t1);
                let t2 = parse_u8(t1)->Ok_0.1;
                lemma_written_u8(t2);
                let t3 = parse_u8(t2)->Ok_0.1;
                if u.player.is_some() {
                    lemma_written_player(t3);
                }
                assert(bytes =~= event_encoding(e) + rest);
            },
        }
    }
}

proof fn lemma_written_events(bytes: Seq<u8>)
    ensures
        parse_events(bytes) matches Ok((events, rest)) ==> events.len() <= MAX_EVENT_COUNT
            && bytes == u32_le(events.len() as u32) + events_encoding(events) + rest
            && events_fault(events).is_none() && events.map_values(|e: EventView| e.stored())
            == events && forall|i: int| 0 <= i < events.len() ==> (#[trigger] events[i]).valid(),
{
    let enc = |e: EventView| event_encoding(e);
    let dec = |b: Seq<u8>| parse_event(b);
    let good = |e: EventView| event_kept(e);
    lemma_written_u32(bytes);
    if let Ok((count, after)) = parse_u32(bytes) {
        assert forall|b: Seq<u8>| #[trigger] writes_back(enc, dec, good, b) by {
            lemma_written_event(b);
        }
        lemma_written_each(enc, dec, good, count as nat, after);
        if let Ok((events, rest)) = parse_events(bytes) {
            assert(bytes =~= u32_le(events.len() as u32) + events_encoding(events) + rest);
            assert forall|i: int| 0 <= i < events.len() implies event_kept(
                #[trigger] events[i],
            ) by {
                assert(good(events[i]));
            }
            let fault = |e: EventView| event_fault(e);
            assert forall|i: int| 0 <= i < events.len() implies (#[trigger] fault(
                events[i],
            )).is_none() by {
                assert(event_kept(events[i]));
            }
            lemma_first_fault_of_none(fault, events);
            assert(events.map_values(|e: EventView| e.stored()) =~= events);
        }
    }
}

proof fn lemma_written_location(bytes: Seq<u8>)
    ensures
        parse_location(bytes) matches Ok((location, rest)) ==> bytes == location_encoding(
            location,
        ) + rest && !location.contains('\0'),
{
    if let Ok((location, rest)) = parse_location(bytes) {
        lemma_nul_position_found(bytes);
        let n = nul_position(bytes)->Some_0;
        let text = bytes.take(n);
        decode_utf8_encode_utf8(text);
        assert(bytes =~= text + seq![0u8] + rest);
        lemma_nul_free_text(location);
    }
}

/// A table that was read is one that the format has room for and keeps
/// whole.
spec fn table_kept(t: TableView) -> bool {
    table_fault(t).is_none() && t.valid() && t.stored() == t
}

proof fn lemma_written_table(bytes: Seq<u8>)
    ensures
        parse_table(bytes) matches Ok((t, rest)) ==> bytes == table_encoding(t) + rest
            && table_kept(t),
{
    if let Ok((t, rest)) = parse_table(bytes) {
        lemma_written_u32(bytes);
        let t1 = parse_u32(bytes)->Ok_0.1;
        lemma_written_location(t1);
        let t2 = parse_location(t1)->Ok_0.1;
        lemma_written_u8(t2);
        let t3 = parse_u8(t2)->Ok_0.1;
        lemma_written_players(t3);
        let t4 = parse_players(t3)->Ok_0.1;
        lemma_written_events(t4);
        let id = u32_le(t.id);
        let location = location_encoding(t.location);
        let size = seq![t.table_size];
        let count = seq![t.initial_context.len() as u8];
        let players = players_encoding(t.initial_context);
        let number = u32_le(t.events.len() as u32);
        let events = events_encoding(t.events);
        assert(t4 == number + events + rest);
        assert(t3 == count + players + t4);
        assert(t2 == size + t3);
        assert(t1 == location + t2);
        assert(bytes == id + t1);
        lemma_join(id, location, t2);
        lemma_join(id + location, size, t3);
        lemma_join(id + location + size, count + players, t4);
        lemma_join(id + location + size, count, players);
        lemma_join(id + location + size + count + players, number + events, rest);
        lemma_join(id + location + size + count + players, number, events);
        assert(t.stored().initial_context == t.initial_context);
        assert(t.stored().events == t.events);
    }
}

proof fn lemma_written_tables(bytes: Seq<u8>)
    ensures
        parse_tables(bytes) matches Ok((tables, rest)) ==> tables.len() <= MAX_SHORT_COUNT
            && bytes == seq![tables.len() as u8] + tables_encoding(tables) + rest
            && tables_fault(tables).is_none() && tables.map_values(|t: TableView| t.stored())
            == tables && forall|i: int| 0 <= i < tables.len() ==> (#[trigger] tables[i]).valid(),
{
    let enc = |t: TableView| table_encoding(t);
    let dec = |b: Seq<u8>| parse_table(b);
    let good = |t: TableView| table_kept(t);
    lemma_written_u8(bytes);
    if let Ok((count, after)) = parse_u8(bytes) {
        assert forall|b: Seq<u8>| #[trigger] writes_back(enc, dec, good, b) by {
            lemma_written_table(b);
        }
        lemma_written_each(enc, dec, good, count as nat, after);
        if let Ok((tables, rest)) = parse_tables(bytes) {
            assert(bytes =~= seq![tables.len() as u8] + tables_encoding(tables) + rest);
            assert forall|i: int| 0 <= i < tables.len() implies table_kept(
                #[trigger] tables[i],
            ) by {
                assert(good(tables[i]));
            }
            let fault = |t: TableView| table_fault(t);
            assert forall|i: int| 0 <= i < tables.len() implies (#[trigger] fault(
                tables[i],
            )).is_none() by {
                assert(table_kept(tables[i]));
            }
            lemma_first_fault_of_none(fault, tables);
            assert(tables.map_values(|t: TableView| t.stored()) =~= tables);
        }
    }
}

/// What reads as a session was written as one. Bytes that spell a session
/// are the bytes of that session and then the bytes that were not looked
/// at; the session is one that the format has room for, and holds nothing
/// but what the layout has a place for.
pub proof fn lemma_read_is_written(bytes: Seq<u8>)
    ensures
        parse_session(bytes) matches Ok((s, rest)) ==> bytes == session_encoding(s) + rest
            && session_fault(s).is_none() && s.valid() && s.stored() == s,
        decoding(bytes) matches Ok(s) ==> session_encoding(s).is_prefix_of(bytes)
            && session_fault(s).is_none() && s.valid() && s.stored() == s,
{
    if let Ok((s, rest)) = parse_session(bytes) {
        let t1 = parse_preamble(bytes)->Ok_0.1;
        assert(bytes.skip(4) =~= s.version.wire() + t1) by {
            Version::lemma_byte_from_byte(bytes.skip(4)[0]);
        }
        assert(bytes =~= bytes.take(4) + bytes.skip(4));
        lemma_written_u32(t1);
        let t2 = parse_u32(t1)->Ok_0.1;
        lemma_written_tables(t2);
        assert(bytes =~= session_encoding(s) + rest);
        assert(s.stored().tables == s.tables);
    }
}

/// When reading succeeds: on the bytes of a session that the format has
/// room for, whatever follows them, and on no other bytes.
pub proof fn lemma_reads_what_is_written(bytes: Seq<u8>)
    ensures
        decoding(bytes).is_ok() <==> exists|s: SessionView, rest: Seq<u8>|
            session_fault(s).is_none() && s.valid() && bytes == #[trigger] (session_encoding(s)
                + rest),
{
    if let Ok((s, rest)) = parse_session(bytes) {
        lemma_read_is_written(bytes);
        assert(bytes == session_encoding(s) + rest);
    }
    if exists|s: SessionView, rest: Seq<u8>|
        session_fault(s).is_none() && s.valid() && bytes == #[trigger] (session_encoding(s)
            + rest) {
        let (s, rest) = choose|s: SessionView, rest: Seq<u8>|
            session_fault(s).is_none() && s.valid() && bytes == #[trigger] (session_encoding(s)
                + rest);
        lemma_round_trip_stored(s, rest);
    }
}

} // verus!
