//! What holds between the two directions: what was written reads back, what
//! was cut short is refused as cut short, and a wrong magic number is refused
//! as that.

use crate::formats::heir_bin::grammar::{
    decoding, lemma_nul_position, parse_action, parse_actions, parse_board, parse_card, parse_each,
    parse_event, parse_events, parse_hand, parse_location, parse_pair, parse_pairs, parse_player,
    parse_players, parse_preamble, parse_session, parse_table, parse_tables, parse_u32, parse_u64,
    parse_u8, DecodeError, Parsed,
};
use crate::formats::heir_bin::layout::{
    action_encoding, actions_encoding, encoding_of_each, event_encoding, event_fault,
    events_encoding, events_fault, hand_encoding, hand_fault, lemma_first_fault_none,
    lemma_nul_free_text, location_encoding, magic, nul_free, pair_encoding, pairs_encoding,
    player_encoding, players_encoding, session_encoding, session_fault, table_encoding,
    table_fault, tables_encoding, tables_fault, MAX_EVENT_COUNT, MAX_SHORT_COUNT,
};
use crate::model::{EventView, HandView, PlayerView, SessionView, TableView};
use crate::types::action::Action;
use crate::types::board::Board;
use crate::types::card::Card;
use crate::types::version::{lemma_version_round_trip, Version};
use crate::wire::{u32_le, u64_le};
use vstd::prelude::*;
use vstd::utf8::{encode_utf8, encode_utf8_decode_utf8, encode_utf8_valid_utf8};

verus! {

/// What a reader makes of the first `k` bytes of `written` followed by
/// `tail`, where `written` is how `value` is written: cut inside `written`
/// it finds the bytes at an end, and from there on it reads `value` and
/// leaves what the cut left of `tail`.
spec fn reads<T>(result: Parsed<T>, written: Seq<u8>, value: T, tail: Seq<u8>, k: int)
    -> bool {
    result == (if k < written.len() {
        Err::<(T, Seq<u8>), _>(DecodeError::UnexpectedEof)
    } else {
        Ok::<_, DecodeError>((value, tail.take(k - written.len())))
    })
}

/// `reads` for an item of a list: `dec` on what `enc` wrote of `x`, where
/// `keep(x)` is what the format keeps of `x`.
spec fn reads_item<T>(
    enc: spec_fn(T) -> Seq<u8>,
    dec: spec_fn(Seq<u8>) -> Parsed<T>,
    keep: spec_fn(T) -> T,
    x: T,
    tail: Seq<u8>,
    k: int,
) -> bool {
    reads(dec((enc(x) + tail).take(k)), enc(x), keep(x), tail, k)
}

/// The bytes of a cut that falls after `first` are `first` and a cut of what
/// follows; a cut inside `first` is a cut of `first` alone.
proof fn lemma_cut(first: Seq<u8>, rest: Seq<u8>, k: int)
    requires
        0 <= k <= first.len() + rest.len(),
    ensures
        k >= first.len() ==> (first + rest).take(k) == first + rest.take(k - first.len()),
        k < first.len() ==> (first + rest).take(k) == first.take(k),
{
    if k >= first.len() {
        assert((first + rest).take(k) =~= first + rest.take(k - first.len()));
    } else {
        assert((first + rest).take(k) =~= first.take(k));
    }
}

proof fn lemma_reads_u8(x: u8, tail: Seq<u8>, k: int)
    requires
        0 <= k <= 1 + tail.len(),
    ensures
        reads(parse_u8((seq![x] + tail).take(k)), seq![x], x, tail, k),
{
    let b = (seq![x] + tail).take(k);
    if k >= 1 {
        assert(b.skip(1) =~= tail.take(k - 1));
    }
}

proof fn lemma_reads_u32(x: u32, tail: Seq<u8>, k: int)
    requires
        0 <= k <= 4 + tail.len(),
    ensures
        u32_le(x).len() == 4,
        reads(parse_u32((u32_le(x) + tail).take(k)), u32_le(x), x, tail, k),
{
    lemma_cut(u32_le(x), tail, k);
    if k >= 4 {
        crate::wire::lemma_u32_le_round_trip(x, tail.take(k - 4));
    }
}

proof fn lemma_reads_u64(x: u64, tail: Seq<u8>, k: int)
    requires
        0 <= k <= 8 + tail.len(),
    ensures
        u64_le(x).len() == 8,
        reads(parse_u64((u64_le(x) + tail).take(k)), u64_le(x), x, tail, k),
{
    lemma_cut(u64_le(x), tail, k);
    if k >= 8 {
        crate::wire::lemma_u64_le_round_trip(x, tail.take(k - 8));
    }
}

/// The length of a list's encoding is the sum of its items' lengths; here:
/// it splits at the first item.
proof fn lemma_each_reads<T>(
    enc: spec_fn(T) -> Seq<u8>,
    dec: spec_fn(Seq<u8>) -> Parsed<T>,
    keep: spec_fn(T) -> T,
    xs: Seq<T>,
    tail: Seq<u8>,
    k: int,
)
    requires
        0 <= k <= encoding_of_each(enc, xs).len() + tail.len(),
        forall|i: int, t: Seq<u8>, j: int|
            0 <= i < xs.len() && 0 <= j <= enc(xs[i]).len() + t.len() ==> #[trigger] reads_item(
                enc,
                dec,
                keep,
                xs[i],
                t,
                j,
            ),
    ensures
        reads(
            parse_each(dec, xs.len(), (encoding_of_each(enc, xs) + tail).take(k)),
            encoding_of_each(enc, xs),
            xs.map_values(keep),
            tail,
            k,
        ),
    decreases xs.len(),
{
    let written = encoding_of_each(enc, xs);
    if xs.len() == 0 {
        assert((written + tail).take(k) =~= tail.take(k));
        assert(xs.map_values(keep) =~= Seq::empty());
    } else {
        let rest = xs.drop_first();
        let first = enc(xs[0]);
        let after = encoding_of_each(enc, rest) + tail;
        assert(written + tail =~= first + after);
        assert(reads_item(enc, dec, keep, xs[0], after, k));
        if k >= first.len() {
            assert forall|i: int, t: Seq<u8>, j: int|
                0 <= i < rest.len() && 0 <= j <= enc(rest[i]).len() + t.len() implies #[trigger] reads_item(
                enc,
                dec,
                keep,
                rest[i],
                t,
                j,
            ) by {
                assert(rest[i] == xs[i + 1]);
                assert(reads_item(enc, dec, keep, xs[i + 1], t, j));
            }
            lemma_each_reads(enc, dec, keep, rest, tail, k - first.len());
            assert(seq![keep(xs[0])] + rest.map_values(keep) =~= xs.map_values(keep));
        }
    }
}

proof fn lemma_reads_card(c: Card, tail: Seq<u8>, k: int)
    requires
        0 <= k <= 1 + tail.len(),
    ensures
        reads(parse_card((seq![c.tag()] + tail).take(k)), seq![c.tag()], c, tail, k),
{
    lemma_reads_u8(c.tag(), tail, k);
    c.lemma_tag();
}

proof fn lemma_reads_pair(pair: (Card, Card), tail: Seq<u8>, k: int)
    requires
        0 <= k <= 2 + tail.len(),
    ensures
        pair_encoding(pair).len() == 2,
        reads(
            parse_pair((pair_encoding(pair) + tail).take(k)),
            pair_encoding(pair),
            pair,
            tail,
            k,
        ),
{
    let t1 = seq![pair.1.tag()] + tail;
    assert(pair_encoding(pair) + tail =~= seq![pair.0.tag()] + t1);
    lemma_reads_card(pair.0, t1, k);
    if k >= 1 {
        lemma_reads_card(pair.1, tail, k - 1);
    }
}

proof fn lemma_reads_action(a: Action, tail: Seq<u8>, k: int)
    requires
        0 <= k <= 5 + tail.len(),
    ensures
        action_encoding(a).len() == 5,
        reads(
            parse_action((action_encoding(a) + tail).take(k)),
            action_encoding(a),
            a,
            tail,
            k,
        ),
{
    let code = a.spec_action_type().code();
    let t1 = u32_le(a.spec_cents()) + tail;
    assert(action_encoding(a) + tail =~= seq![code] + t1);
    a.lemma_fields();
    lemma_reads_u8(code, t1, k);
    if k >= 1 {
        lemma_reads_u32(a.spec_cents(), tail, k - 1);
    }
}

proof fn lemma_reads_board(b: Board, tail: Seq<u8>, k: int)
    requires
        b.valid(),
        0 <= k <= 4 + tail.len(),
    ensures
        b.wire().len() == 4,
        reads(parse_board((b.wire() + tail).take(k)), b.wire(), b, tail, k),
{
    lemma_cut(b.wire(), tail, k);
    if k >= 4 {
        crate::types::board::lemma_board_round_trip(b, tail.take(k - 4));
    }
}

proof fn lemma_reads_player(p: PlayerView, tail: Seq<u8>, k: int)
    requires
        0 <= k <= 8 + tail.len(),
    ensures
        player_encoding(p).len() == 8,
        reads(
            parse_player((player_encoding(p) + tail).take(k)),
            player_encoding(p),
            p.stored(),
            tail,
            k,
        ),
{
    let t1 = u32_le(p.stack) + tail;
    assert(player_encoding(p) + tail =~= u32_le(p.id) + t1);
    lemma_reads_u32(p.id, t1, k);
    if k >= 4 {
        lemma_reads_u32(p.stack, tail, k - 4);
    }
}

proof fn lemma_reads_pairs(pairs: Seq<(Card, Card)>, tail: Seq<u8>, k: int)
    requires
        pairs.len() <= MAX_SHORT_COUNT,
        0 <= k <= 1 + pairs_encoding(pairs).len() + tail.len(),
    ensures
        reads(
            parse_pairs((seq![pairs.len() as u8] + pairs_encoding(pairs) + tail).take(k)),
            seq![pairs.len() as u8] + pairs_encoding(pairs),
            pairs,
            tail,
            k,
        ),
{
    let enc = |pair: (Card, Card)| pair_encoding(pair);
    let dec = |b: Seq<u8>| parse_pair(b);
    let keep = |pair: (Card, Card)| pair;
    let t1 = pairs_encoding(pairs) + tail;
    assert(seq![pairs.len() as u8] + pairs_encoding(pairs) + tail =~= seq![pairs.len() as u8]
        + t1);
    lemma_reads_u8(pairs.len() as u8, t1, k);
    if k >= 1 {
        assert forall|i: int, t: Seq<u8>, j: int|
            0 <= i < pairs.len() && 0 <= j <= enc(pairs[i]).len() + t.len() implies #[trigger] reads_item(
            enc,
            dec,
            keep,
            pairs[i],
            t,
            j,
        ) by {
            lemma_reads_pair(pairs[i], t, j);
        }
        lemma_each_reads(enc, dec, keep, pairs, tail, k - 1);
        assert(pairs.map_values(keep) =~= pairs);
    }
}

proof fn lemma_reads_actions(actions: Seq<Action>, tail: Seq<u8>, k: int)
    requires
        actions.len() <= MAX_SHORT_COUNT,
        0 <= k <= 1 + actions_encoding(actions).len() + tail.len(),
    ensures
        reads(
            parse_actions((seq![actions.len() as u8] + actions_encoding(actions) + tail).take(k)),
            seq![actions.len() as u8] + actions_encoding(actions),
            actions,
            tail,
            k,
        ),
{
    let enc = |a: Action| action_encoding(a);
    let dec = |b: Seq<u8>| parse_action(b);
    let keep = |a: Action| a;
    let t1 = actions_encoding(actions) + tail;
    assert(seq![actions.len() as u8] + actions_encoding(actions) + tail =~= seq![
        actions.len() as u8,
    ] + t1);
    lemma_reads_u8(actions.len() as u8, t1, k);
    if k >= 1 {
        assert forall|i: int, t: Seq<u8>, j: int|
            0 <= i < actions.len() && 0 <= j <= enc(actions[i]).len() + t.len() implies #[trigger] reads_item(
            enc,
            dec,
            keep,
            actions[i],
            t,
            j,
        ) by {
            lemma_reads_action(actions[i], t, j);
        }
        lemma_each_reads(enc, dec, keep, actions, tail, k - 1);
        assert(actions.map_values(keep) =~= actions);
    }
}

proof fn lemma_reads_players(players: Seq<PlayerView>, tail: Seq<u8>, k: int)
    requires
        players.len() <= MAX_SHORT_COUNT,
        0 <= k <= 1 + players_encoding(players).len() + tail.len(),
    ensures
        reads(
            parse_players((seq![players.len() as u8] + players_encoding(players) + tail).take(k)),
            seq![players.len() as u8] + players_encoding(players),
            players.map_values(|p: PlayerView| p.stored()),
            tail,
            k,
        ),
{
    let enc = |p: PlayerView| player_encoding(p);
    let dec = |b: Seq<u8>| parse_player(b);
    let keep = |p: PlayerView| p.stored();
    let t1 = players_encoding(players) + tail;
    assert(seq![players.len() as u8] + players_encoding(players) + tail =~= seq![
        players.len() as u8,
    ] + t1);
    lemma_reads_u8(players.len() as u8, t1, k);
    if k >= 1 {
        assert forall|i: int, t: Seq<u8>, j: int|
            0 <= i < players.len() && 0 <= j <= enc(players[i]).len() + t.len() implies #[trigger] reads_item(
            enc,
            dec,
            keep,
            players[i],
            t,
            j,
        ) by {
            lemma_reads_player(players[i], t, j);
        }
        lemma_each_reads(enc, dec, keep, players, tail, k - 1);
    }
}

proof fn lemma_reads_hand(h: HandView, tail: Seq<u8>, k: int)
    requires
        hand_fault(h).is_none(),
        h.valid(),
        0 <= k <= hand_encoding(h).len() + tail.len(),
    ensures
        reads(parse_hand((hand_encoding(h) + tail).take(k)), hand_encoding(h), h, tail, k),
{
    let pairs = seq![h.hole_cards.len() as u8] + pairs_encoding(h.hole_cards);
    let actions = seq![h.actions.len() as u8] + actions_encoding(h.actions);
    let t5 = h.board.wire() + tail;
    let t4 = u64_le(h.timestamp) + t5;
    let t3 = actions + t4;
    let t2 = pairs + t3;
    let t1 = seq![h.button_position] + t2;
    assert(hand_encoding(h) + tail =~= u32_le(h.id) + t1);
    assert(hand_encoding(h).len() == 4 + 1 + pairs.len() + actions.len() + 8 + 4);
    lemma_reads_u32(h.id, t1, k);
    if k >= 4 {
        let k1 = k - 4;
        lemma_reads_u8(h.button_position, t2, k1);
        if k1 >= 1 {
            let k2 = k1 - 1;
            assert(pairs + t3 =~= seq![h.hole_cards.len() as u8] + pairs_encoding(h.hole_cards)
                + t3);
            lemma_reads_pairs(h.hole_cards, t3, k2);
            if k2 >= pairs.len() {
                let k3 = k2 - pairs.len();
                assert(actions + t4 =~= seq![h.actions.len() as u8] + actions_encoding(h.actions)
                    + t4);
                lemma_reads_actions(h.actions, t4, k3);
                if k3 >= actions.len() {
                    let k4 = k3 - actions.len();
                    lemma_reads_u64(h.timestamp, t5, k4);
                    if k4 >= 8 {
                        lemma_reads_board(h.board, tail, k4 - 8);
                    }
                }
            }
        }
    }
}

proof fn lemma_reads_event(e: EventView, tail: Seq<u8>, k: int)
    requires
        event_fault(e).is_none(),
        e.valid(),
        0 <= k <= event_encoding(e).len() + tail.len(),
    ensures
        reads(
            parse_event((event_encoding(e) + tail).take(k)),
            event_encoding(e),
            e.stored(),
            tail,
            k,
        ),
{
    match e {
        EventView::Hand(h) => {
            let t1 = hand_encoding(h) + tail;
            assert(event_encoding(e) + tail =~= seq![0u8] + t1);
            lemma_reads_u8(0u8, t1, k);
            if k >= 1 {
                lemma_reads_hand(h, tail, k - 1);
            }
        },
        EventView::StackUpdate(u) => {
            let t2 = u32_le(u.stack) + tail;
            let t1 = seq![u.seat] + t2;
            assert(event_encoding(e) + tail =~= seq![1u8] + t1);
            lemma_reads_u8(1u8, t1, k);
            if k >= 1 {
                lemma_reads_u8(u.seat, t2, k - 1);
                if k >= 2 {
                    lemma_reads_u32(u.stack, tail, k - 2);
                }
            }
        },
        EventView::SeatUpdate(u) => {
            let body = match u.player {
                Some(p) => seq![1u8] + player_encoding(p),
                None => seq![0u8],
            };
            let t2 = body + tail;
            let t1 = seq![u.seat] + t2;
            assert(event_encoding(e) + tail =~= seq![2u8] + t1);
            lemma_reads_u8(2u8, t1, k);
            if k >= 1 {
                lemma_reads_u8(u.seat, t2, k - 1);
                if k >= 2 {
                    match u.player {
                        Some(p) => {
                            let t3 = player_encoding(p) + tail;
                            assert(t2 =~= seq![1u8] + t3);
                            lemma_reads_u8(1u8, t3, k - 2);
                            if k >= 3 {
                                lemma_reads_player(p, tail, k - 3);
                            }
                        },
                        None => {
                            lemma_reads_u8(0u8, tail, k - 2);
                        },
                    }
                }
            }
        },
    }
}

proof fn lemma_reads_events(events: Seq<EventView>, tail: Seq<u8>, k: int)
    requires
        events.len() <= MAX_EVENT_COUNT,
        events_fault(events).is_none(),
        forall|i: int| 0 <= i < events.len() ==> (#[trigger] events[i]).valid(),
        0 <= k <= 4 + events_encoding(events).len() + tail.len(),
    ensures
        reads(
            parse_events((u32_le(events.len() as u32) + events_encoding(events) + tail).take(k)),
            u32_le(events.len() as u32) + events_encoding(events),
            events.map_values(|e: EventView| e.stored()),
            tail,
            k,
        ),
{
    let enc = |e: EventView| event_encoding(e);
    let dec = |b: Seq<u8>| parse_event(b);
    let keep = |e: EventView| e.stored();
    let t1 = events_encoding(events) + tail;
    assert(u32_le(events.len() as u32) + events_encoding(events) + tail =~= u32_le(
        events.len() as u32,
    ) + t1);
    lemma_reads_u32(events.len() as u32, t1, k);
    if k >= 4 {
        lemma_first_fault_none(|e: EventView| event_fault(e), events);
        assert forall|i: int, t: Seq<u8>, j: int|
            0 <= i < events.len() && 0 <= j <= enc(events[i]).len() + t.len() implies #[trigger] reads_item(
            enc,
            dec,
            keep,
            events[i],
            t,
            j,
        ) by {
            let fault = |e: EventView| event_fault(e);
            assert(fault(events[i]).is_none());
            assert(events[i].valid());
            lemma_reads_event(events[i], t, j);
        }
        lemma_each_reads(enc, dec, keep, events, tail, k - 4);
    }
}

proof fn lemma_reads_location(location: Seq<char>, tail: Seq<u8>, k: int)
    requires
        nul_free(encode_utf8(location)),
        0 <= k <= location_encoding(location).len() + tail.len(),
    ensures
        reads(
            parse_location((location_encoding(location) + tail).take(k)),
            location_encoding(location),
            location,
            tail,
            k,
        ),
{
    let text = encode_utf8(location);
    let n = text.len() as int;
    let bytes = (location_encoding(location) + tail).take(k);
    if k <= n {
        assert forall|j: int| 0 <= j < k implies bytes[j] != 0 by {
            assert(bytes[j] == text[j]);
        }
        lemma_nul_position(bytes, k);
    } else {
        assert forall|j: int| 0 <= j < n implies bytes[j] != 0 by {
            assert(bytes[j] == text[j]);
        }
        lemma_nul_position(bytes, n);
        assert(bytes.take(n) =~= text);
        assert(bytes.skip(n + 1) =~= tail.take(k - (n + 1)));
        encode_utf8_valid_utf8(location);
        encode_utf8_decode_utf8(location);
    }
}

proof fn lemma_reads_table(t: TableView, tail: Seq<u8>, k: int)
    requires
        table_fault(t).is_none(),
        t.valid(),
        0 <= k <= table_encoding(t).len() + tail.len(),
    ensures
        reads(
            parse_table((table_encoding(t) + tail).take(k)),
            table_encoding(t),
            t.stored(),
            tail,
            k,
        ),
{
    let location = location_encoding(t.location);
    let players = seq![t.initial_context.len() as u8] + players_encoding(t.initial_context);
    let events = u32_le(t.events.len() as u32) + events_encoding(t.events);
    let t4 = events + tail;
    let t3 = players + t4;
    let t2 = seq![t.table_size] + t3;
    let t1 = location + t2;
    assert(table_encoding(t) + tail =~= u32_le(t.id) + t1);
    assert(table_encoding(t).len() == 4 + location.len() + 1 + players.len() + events.len());
    lemma_reads_u32(t.id, t1, k);
    lemma_nul_free_text(t.location);
    if k >= 4 {
        let k1 = k - 4;
        lemma_reads_location(t.location, t2, k1);
        if k1 >= location.len() {
            let k2 = k1 - location.len();
            lemma_reads_u8(t.table_size, t3, k2);
            if k2 >= 1 {
                let k3 = k2 - 1;
                assert(players + t4 =~= seq![t.initial_context.len() as u8] + players_encoding(
                    t.initial_context,
                ) + t4);
                lemma_reads_players(t.initial_context, t4, k3);
                if k3 >= players.len() {
                    let k4 = k3 - players.len();
                    assert(events + tail =~= u32_le(t.events.len() as u32) + events_encoding(
                        t.events,
                    ) + tail);
                    lemma_reads_events(t.events, tail, k4);
                }
            }
        }
    }
}

proof fn lemma_reads_tables(tables: Seq<TableView>, tail: Seq<u8>, k: int)
    requires
        tables.len() <= MAX_SHORT_COUNT,
        tables_fault(tables).is_none(),
        forall|i: int| 0 <= i < tables.len() ==> (#[trigger] tables[i]).valid(),
        0 <= k <= 1 + tables_encoding(tables).len() + tail.len(),
    ensures
        reads(
            parse_tables((seq![tables.len() as u8] + tables_encoding(tables) + tail).take(k)),
            seq![tables.len() as u8] + tables_encoding(tables),
            tables.map_values(|t: TableView| t.stored()),
            tail,
            k,
        ),
{
    let enc = |t: TableView| table_encoding(t);
    let dec = |b: Seq<u8>| parse_table(b);
    let keep = |t: TableView| t.stored();
    let t1 = tables_encoding(tables) + tail;
    assert(seq![tables.len() as u8] + tables_encoding(tables) + tail =~= seq![
        tables.len() as u8,
    ] + t1);
    lemma_reads_u8(tables.len() as u8, t1, k);
    if k >= 1 {
        lemma_first_fault_none(|t: TableView| table_fault(t), tables);
        assert forall|i: int, t: Seq<u8>, j: int|
            0 <= i < tables.len() && 0 <= j <= enc(tables[i]).len() + t.len() implies #[trigger] reads_item(
            enc,
            dec,
            keep,
            tables[i],
            t,
            j,
        ) by {
            let fault = |t: TableView| table_fault(t);
            assert(fault(tables[i]).is_none());
            assert(tables[i].valid());
            lemma_reads_table(tables[i], t, j);
        }
        lemma_each_reads(enc, dec, keep, tables, tail, k - 1);
    }
}

/// What a reader makes of a session that was written, followed by `tail`,
/// and then cut after `k` bytes.
proof fn lemma_reads_session(s: SessionView, tail: Seq<u8>, k: int)
    requires
        session_fault(s).is_none(),
        s.valid(),
        0 <= k <= session_encoding(s).len() + tail.len(),
    ensures
        reads(
            parse_session((session_encoding(s) + tail).take(k)),
            session_encoding(s),
            s.stored(),
            tail,
            k,
        ),
{
    let tables = seq![s.tables.len() as u8] + tables_encoding(s.tables);
    let t3 = tables + tail;
    let t2 = u32_le(s.id) + t3;
    let t1 = s.version.wire() + t2;
    let bytes = (session_encoding(s) + tail).take(k);
    assert(session_encoding(s) + tail =~= magic() + t1);
    assert(session_encoding(s).len() == 4 + 1 + 4 + tables.len());
    lemma_cut(magic(), t1, k);
    if k >= 4 {
        let k1 = k - 4;
        assert(bytes.take(4) =~= magic());
        assert(bytes.skip(4) =~= t1.take(k1));
        lemma_cut(s.version.wire(), t2, k1);
        if k1 >= 1 {
            lemma_version_round_trip(s.version, t2.take(k1 - 1));
            let k2 = k1 - 1;
            lemma_reads_u32(s.id, t3, k2);
            if k2 >= 4 {
                assert(tables + tail =~= seq![s.tables.len() as u8] + tables_encoding(s.tables)
                    + tail);
                lemma_reads_tables(s.tables, tail, k2 - 4);
            }
        }
    }
}

/// Round trip. A session that the format has room for, written out and read
/// back, is the session as the format keeps it: every field that the layout
/// has a place for is as it was, and the others (names, rake, blinds, the
/// hero) are empty. Bytes that follow the session change nothing.
pub proof fn lemma_round_trip_stored(s: SessionView, tail: Seq<u8>)
    requires
        session_fault(s).is_none(),
        s.valid(),
    ensures
        parse_session(session_encoding(s) + tail) == Ok::<_, DecodeError>((s.stored(), tail)),
        decoding(session_encoding(s) + tail) == Ok::<_, DecodeError>(s.stored()),
        decoding(session_encoding(s)) == Ok::<_, DecodeError>(s.stored()),
{
    let written = session_encoding(s);
    let end = (written.len() + tail.len()) as int;
    lemma_reads_session(s, tail, end);
    assert((written + tail).take(end) =~= written + tail);
    assert(tail.take(tail.len() as int) =~= tail);
    lemma_reads_session(s, Seq::empty(), written.len() as int);
    assert((written + Seq::<u8>::empty()).take(written.len() as int) =~= written);
}

/// Round trip. A session that the format has room for, and that holds
/// nothing but what the layout has a place for, is equal in every field to
/// what its bytes read back as.
pub proof fn lemma_round_trip(s: SessionView)
    requires
        session_fault(s).is_none(),
        s.valid(),
        s.stored() == s,
    ensures
        decoding(session_encoding(s)) == Ok::<_, DecodeError>(s),
{
    lemma_round_trip_stored(s, Seq::empty());
}

/// Truncation. The bytes of a session, cut anywhere before their end, are
/// refused as having ended too early: no shorter session comes out of them.
pub proof fn lemma_truncated(s: SessionView, k: int)
    requires
        session_fault(s).is_none(),
        s.valid(),
        0 <= k < session_encoding(s).len(),
    ensures
        decoding(session_encoding(s).take(k)) == Err::<SessionView, _>(
            DecodeError::UnexpectedEof,
        ),
{
    let written = session_encoding(s);
    lemma_reads_session(s, Seq::empty(), k);
    assert((written + Seq::<u8>::empty()).take(k) =~= written.take(k));
}

/// Bad magic. Bytes that start with any four bytes other than the magic
/// number are refused as having a bad magic number, whatever follows.
pub proof fn lemma_bad_magic(bytes: Seq<u8>)
    requires
        bytes.len() >= 4,
        bytes.take(4) != magic(),
    ensures
        decoding(bytes) == Err::<SessionView, _>(DecodeError::BadMagic),
{
}

/// Corrupted magic. Bytes that start with the magic number, with any one of
/// its four bytes changed, are refused as having a bad magic number: no
/// table of them is read.
pub proof fn lemma_corrupt_magic(bytes: Seq<u8>, i: int, byte: u8)
    requires
        bytes.len() >= 4,
        bytes.take(4) == magic(),
        0 <= i < 4,
        byte != bytes[i],
    ensures
        decoding(bytes.update(i, byte)) == Err::<SessionView, _>(DecodeError::BadMagic),
        parse_preamble(bytes.update(i, byte)) == Err::<(Version, Seq<u8>), _>(
            DecodeError::BadMagic,
        ),
{
    let changed = bytes.update(i, byte);
    assert(bytes.take(4)[i] == bytes[i]);
    assert(changed.take(4)[i] == byte);
    lemma_bad_magic(changed);
}

} // verus!
