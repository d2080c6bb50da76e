//! Which bytes a session becomes, and which sessions the format has no room
//! for.

use crate::model::{EventView, HandView, PlayerView, SessionView, TableView};
use crate::text::{decimal, push_decimal};
use crate::types::action::Action;
use crate::types::card::Card;
use crate::wire::{u32_le, u64_le};
use vstd::prelude::*;
use vstd::string::*;
use vstd::utf8::{char_is_scalar, encode_scalar, encode_utf8};

verus! {

/// Why a session cannot be written.
#[derive(Debug, Clone, Copy, PartialEq, Eq, Structural)]
pub enum EncodeError {
    /// The session is of a version whose layout this is not; the packed
    /// version byte is given.
    UnsupportedVersion(u8),
    /// More tables than the one count byte can say.
    TooManyTables(usize),
    /// A location with the character zero in it, which would end it early.
    NulInLocation,
    /// More players in a table's seating than the one count byte can say.
    TooManyPlayers(usize),
    /// More events at a table than the four count bytes can say.
    TooManyEvents(usize),
    /// More hole-card pairs in a hand than the one count byte can say.
    TooManyHoleCards(usize),
    /// More actions in a hand than the one count byte can say.
    TooManyActions(usize),
}

impl EncodeError {
    /// The list that is too long, and its length; `None` for the errors
    /// that are about no list.
    pub open spec fn too_many(&self) -> Option<(Seq<char>, usize)> {
        match *self {
            EncodeError::TooManyTables(n) => Some(("tables"@, n)),
            EncodeError::TooManyPlayers(n) => Some(("players"@, n)),
            EncodeError::TooManyEvents(n) => Some(("events"@, n)),
            EncodeError::TooManyHoleCards(n) => Some(("hole-card pairs"@, n)),
            EncodeError::TooManyActions(n) => Some(("actions"@, n)),
            _ => None,
        }
    }

    /// What the error says.
    pub open spec fn message(&self) -> Seq<char> {
        match *self {
            EncodeError::UnsupportedVersion(version) => "Format version "@ + decimal(
                version as nat,
            ) + " is not supported."@,
            EncodeError::NulInLocation => "A location holds a zero byte."@,
            _ => "The format has no room for "@ + decimal(self.too_many().unwrap().1 as nat)
                + " "@ + self.too_many().unwrap().0 + "."@,
        }
    }

    /// The error as a sentence.
    pub fn to_string(&self) -> (r: String)
        ensures
            r@ == self.message(),
    {
        let (what, n) = match *self {
            EncodeError::UnsupportedVersion(version) => {
                let mut r = String::from_str("Format version ");
                push_decimal(&mut r, version as u64);
                r.append(" is not supported.");
                return r;
            },
            EncodeError::NulInLocation => {
                return String::from_str("A location holds a zero byte.");
            },
            EncodeError::TooManyTables(n) => ("tables", n),
            EncodeError::TooManyPlayers(n) => ("players", n),
            EncodeError::TooManyEvents(n) => ("events", n),
            EncodeError::TooManyHoleCards(n) => ("hole-card pairs", n),
            EncodeError::TooManyActions(n) => ("actions", n),
        };
        let mut r = String::from_str("The format has no room for ");
        push_decimal(&mut r, n as u64);
        r.append(" ");
        r.append(what);
        r.append(".");
        r
    }
}

/// The version byte of the layout described here.
pub const FORMAT_VERSION: u8 = 0;

/// The most items that a one-byte count can announce.
pub const MAX_SHORT_COUNT: usize = 255;

/// The most events that a four-byte count can announce.
pub const MAX_EVENT_COUNT: usize = 0xFFFF_FFFF;

/// The tag byte before a hand.
pub const TAG_HAND: u8 = 0;

/// The tag byte before a stack update.
pub const TAG_STACK_UPDATE: u8 = 1;

/// The tag byte before a seat update.
pub const TAG_SEAT_UPDATE: u8 = 2;

/// The four bytes that open every file: `HEIR` in ASCII.
pub open spec fn magic() -> Seq<u8> {
    seq![0x48u8, 0x45u8, 0x49u8, 0x52u8]
}

/// The encodings of the items of `xs`, one after the other.
pub open spec fn encoding_of_each<T>(item: spec_fn(T) -> Seq<u8>, xs: Seq<T>) -> Seq<u8>
    decreases xs.len(),
{
    if xs.len() == 0 {
        Seq::empty()
    } else {
        item(xs.first()) + encoding_of_each(item, xs.drop_first())
    }
}

/// The fault of the first item of `xs` that has one.
pub open spec fn first_fault<T>(item: spec_fn(T) -> Option<EncodeError>, xs: Seq<T>) -> Option<
    EncodeError,
>
    decreases xs.len(),
{
    if xs.len() == 0 {
        None
    } else {
        match item(xs.first()) {
            Some(e) => Some(e),
            None => first_fault(item, xs.drop_first()),
        }
    }
}

/// Adding an item at the end adds its encoding at the end.
pub proof fn lemma_encoding_of_each_push<T>(item: spec_fn(T) -> Seq<u8>, xs: Seq<T>, x: T)
    ensures
        encoding_of_each(item, xs.push(x)) == encoding_of_each(item, xs) + item(x),
    decreases xs.len(),
{
    if xs.len() == 0 {
        assert(xs.push(x).drop_first() =~= Seq::<T>::empty());
        assert(encoding_of_each(item, Seq::<T>::empty()) =~= Seq::<u8>::empty());
        assert(encoding_of_each(item, xs.push(x)) =~= encoding_of_each(item, xs) + item(x));
    } else {
        assert(xs.push(x).drop_first() =~= xs.drop_first().push(x));
        lemma_encoding_of_each_push(item, xs.drop_first(), x);
        assert(encoding_of_each(item, xs.push(x)) =~= encoding_of_each(item, xs) + item(x));
    }
}

/// Adding an item at the end leaves an earlier fault first; without one,
/// the fault is that of the new item.
pub proof fn lemma_first_fault_push<T>(item: spec_fn(T) -> Option<EncodeError>, xs: Seq<T>, x: T)
    ensures
        first_fault(item, xs.push(x)) == (match first_fault(item, xs) {
            Some(e) => Some(e),
            None => item(x),
        }),
    decreases xs.len(),
{
    if xs.len() == 0 {
        assert(xs.push(x).drop_first() =~= Seq::<T>::empty());
        assert(first_fault(item, Seq::<T>::empty()).is_none());
        assert(xs.push(x).first() == x);
    } else {
        assert(xs.push(x).drop_first() =~= xs.drop_first().push(x));
        assert(xs.push(x).first() == xs.first());
        lemma_first_fault_push(item, xs.drop_first(), x);
    }
}

/// A fault among the first `n` items is the first fault of them all.
pub proof fn lemma_first_fault_prefix<T>(
    item: spec_fn(T) -> Option<EncodeError>,
    xs: Seq<T>,
    n: int,
)
    requires
        0 <= n <= xs.len(),
        first_fault(item, xs.take(n)).is_some(),
    ensures
        first_fault(item, xs) == first_fault(item, xs.take(n)),
    decreases xs.len(),
{
    if n > 0 {
        assert(xs.take(n).first() == xs.first());
        if item(xs.first()).is_none() {
            assert(xs.take(n).drop_first() =~= xs.drop_first().take(n - 1));
            lemma_first_fault_prefix(item, xs.drop_first(), n - 1);
        }
    }
}

/// Where no item has a fault, none has one first.
pub proof fn lemma_first_fault_of_none<T>(item: spec_fn(T) -> Option<EncodeError>, xs: Seq<T>)
    requires
        forall|i: int| 0 <= i < xs.len() ==> (#[trigger] item(xs[i])).is_none(),
    ensures
        first_fault(item, xs).is_none(),
    decreases xs.len(),
{
    if xs.len() > 0 {
        assert(item(xs[0]).is_none());
        assert forall|i: int| 0 <= i < xs.drop_first().len() implies (#[trigger] item(
            xs.drop_first()[i],
        )).is_none() by {
            assert(xs.drop_first()[i] == xs[i + 1]);
            assert(item(xs[i + 1]).is_none());
        }
        lemma_first_fault_of_none(item, xs.drop_first());
    }
}

/// Where no item has a fault first, none has a fault.
pub proof fn lemma_first_fault_none<T>(item: spec_fn(T) -> Option<EncodeError>, xs: Seq<T>)
    requires
        first_fault(item, xs).is_none(),
    ensures
        forall|i: int| 0 <= i < xs.len() ==> (#[trigger] item(xs[i])).is_none(),
    decreases xs.len(),
{
    if xs.len() > 0 {
        lemma_first_fault_none(item, xs.drop_first());
        assert forall|i: int| 0 <= i < xs.len() implies (#[trigger] item(xs[i])).is_none() by {
            if i > 0 {
                assert(xs[i] == xs.drop_first()[i - 1]);
            }
        }
    }
}

/// Id, then stack.
pub open spec fn player_encoding(p: PlayerView) -> Seq<u8> {
    u32_le(p.id) + u32_le(p.stack)
}

/// The tags of the two cards.
pub open spec fn pair_encoding(pair: (Card, Card)) -> Seq<u8> {
    seq![pair.0.tag(), pair.1.tag()]
}

/// The kind in a byte of its own, then the bet size.
pub open spec fn action_encoding(a: Action) -> Seq<u8> {
    seq![a.spec_action_type().code()] + u32_le(a.spec_cents())
}

/// The pairs one after the other, without their count.
pub open spec fn pairs_encoding(pairs: Seq<(Card, Card)>) -> Seq<u8> {
    encoding_of_each(|pair: (Card, Card)| pair_encoding(pair), pairs)
}

/// The actions one after the other, without their count.
pub open spec fn actions_encoding(actions: Seq<Action>) -> Seq<u8> {
    encoding_of_each(|a: Action| action_encoding(a), actions)
}

/// The body of a hand: id, button, the counted hole cards, the counted
/// actions, timestamp, board.
pub open spec fn hand_encoding(h: HandView) -> Seq<u8> {
    u32_le(h.id) + seq![h.button_position] + seq![h.hole_cards.len() as u8] + pairs_encoding(
        h.hole_cards,
    ) + seq![h.actions.len() as u8] + actions_encoding(h.actions) + u64_le(h.timestamp)
        + h.board.wire()
}

/// The tag byte of the event, then its body.
pub open spec fn event_encoding(e: EventView) -> Seq<u8> {
    match e {
        EventView::Hand(h) => seq![TAG_HAND] + hand_encoding(h),
        EventView::StackUpdate(u) => seq![TAG_STACK_UPDATE, u.seat] + u32_le(u.stack),
        EventView::SeatUpdate(u) => seq![TAG_SEAT_UPDATE, u.seat] + (match u.player {
            Some(p) => seq![1u8] + player_encoding(p),
            None => seq![0u8],
        }),
    }
}

/// The text in UTF-8, then a zero byte.
pub open spec fn location_encoding(location: Seq<char>) -> Seq<u8> {
    encode_utf8(location) + seq![0u8]
}

/// The players one after the other, without their count.
pub open spec fn players_encoding(players: Seq<PlayerView>) -> Seq<u8> {
    encoding_of_each(|p: PlayerView| player_encoding(p), players)
}

/// The events one after the other, without their count.
pub open spec fn events_encoding(events: Seq<EventView>) -> Seq<u8> {
    encoding_of_each(|e: EventView| event_encoding(e), events)
}

/// Id, location, size, the counted seating, the counted events.
pub open spec fn table_encoding(t: TableView) -> Seq<u8> {
    u32_le(t.id) + location_encoding(t.location) + seq![t.table_size] + seq![
        t.initial_context.len() as u8,
    ] + players_encoding(t.initial_context) + u32_le(t.events.len() as u32) + events_encoding(
        t.events,
    )
}

/// The tables one after the other, without their count.
pub open spec fn tables_encoding(tables: Seq<TableView>) -> Seq<u8> {
    encoding_of_each(|t: TableView| table_encoding(t), tables)
}

/// The magic number, the version, the session's id and the number of
/// tables.
pub open spec fn header_encoding(s: SessionView) -> Seq<u8> {
    magic() + s.version.wire() + u32_le(s.id) + seq![s.tables.len() as u8]
}

/// The bytes of a session that the format has room for.
pub open spec fn session_encoding(s: SessionView) -> Seq<u8>
    recommends
        session_fault(s).is_none(),
{
    header_encoding(s) + tables_encoding(s.tables)
}

/// Whether no byte of `bytes` is zero.
pub open spec fn nul_free(bytes: Seq<u8>) -> bool {
    forall|i: int| 0 <= i < bytes.len() ==> bytes[i] != 0
}

/// The UTF-8 bytes of one character hold a zero byte only for the character
/// zero.
proof fn lemma_nul_free_scalar(c: char)
    ensures
        nul_free(encode_scalar(c as u32)) <==> c != '\0',
{
    let s = c as u32;
    char_is_scalar(c);
    let bytes = encode_scalar(s);
    assert(s <= 0x7F ==> (((s & 0x7F) as u8 == 0) <==> s == 0)) by (bit_vector);
    assert(0xC0u8 | ((s >> 6) & 0x1F) as u8 != 0) by (bit_vector);
    assert(0xE0u8 | ((s >> 12) & 0x0F) as u8 != 0) by (bit_vector);
    assert(0xF0u8 | ((s >> 18) & 0x7) as u8 != 0) by (bit_vector);
    assert(0x80u8 | (s & 0x3F) as u8 != 0) by (bit_vector);
    assert(0x80u8 | ((s >> 6) & 0x3F) as u8 != 0) by (bit_vector);
    assert(0x80u8 | ((s >> 12) & 0x3F) as u8 != 0) by (bit_vector);
    if c == '\0' {
        assert(bytes[0] == 0);
    }
}

/// A text has a zero byte in its UTF-8 bytes exactly when it has the
/// character zero in it.
pub proof fn lemma_nul_free_text(text: Seq<char>)
    ensures
        nul_free(encode_utf8(text)) <==> !text.contains('\0'),
    decreases text.len(),
{
    if text.len() > 0 {
        let first = encode_scalar(text[0] as u32);
        let rest = encode_utf8(text.drop_first());
        lemma_nul_free_scalar(text[0]);
        lemma_nul_free_text(text.drop_first());
        assert(encode_utf8(text) == first + rest);
        if nul_free(first + rest) {
            assert forall|i: int| 0 <= i < first.len() implies first[i] != 0 by {
                assert((first + rest)[i] == first[i]);
            }
            assert forall|i: int| 0 <= i < rest.len() implies rest[i] != 0 by {
                assert((first + rest)[first.len() + i] == rest[i]);
            }
            assert forall|i: int| 0 <= i < text.len() implies text[i] != '\0' by {
                if i > 0 {
                    assert(text.drop_first()[i - 1] == text[i]);
                }
            }
        }
        if !text.contains('\0') {
            assert(text[0] != '\0');
            assert forall|i: int| 0 <= i < text.drop_first().len() implies text.drop_first()[i]
                != '\0' by {
                assert(text.drop_first()[i] == text[i + 1]);
            }
            assert(!text.drop_first().contains('\0'));
        }
    }
}

/// What is wrong with a hand: too many hole cards, else too many actions.
pub open spec fn hand_fault(h: HandView) -> Option<EncodeError> {
    if h.hole_cards.len() > MAX_SHORT_COUNT {
        Some(EncodeError::TooManyHoleCards(h.hole_cards.len() as usize))
    } else if h.actions.len() > MAX_SHORT_COUNT {
        Some(EncodeError::TooManyActions(h.actions.len() as usize))
    } else {
        None
    }
}

/// What is wrong with an event. Only a hand can have a fault.
pub open spec fn event_fault(e: EventView) -> Option<EncodeError> {
    match e {
        EventView::Hand(h) => hand_fault(h),
        _ => None,
    }
}

/// The fault of the first event that has one.
pub open spec fn events_fault(events: Seq<EventView>) -> Option<EncodeError> {
    first_fault(|e: EventView| event_fault(e), events)
}

/// What is wrong with a table, taken in the order in which it is written:
/// the location, the seating, the number of events, then the events.
pub open spec fn table_fault(t: TableView) -> Option<EncodeError> {
    if t.location.contains('\0') {
        Some(EncodeError::NulInLocation)
    } else if t.initial_context.len() > MAX_SHORT_COUNT {
        Some(EncodeError::TooManyPlayers(t.initial_context.len() as usize))
    } else if t.events.len() > MAX_EVENT_COUNT {
        Some(EncodeError::TooManyEvents(t.events.len() as usize))
    } else {
        events_fault(t.events)
    }
}

/// The fault of the first table that has one.
pub open spec fn tables_fault(tables: Seq<TableView>) -> Option<EncodeError> {
    first_fault(|t: TableView| table_fault(t), tables)
}

/// What is wrong with a session, taken in the order in which it is written:
/// the version, the number of tables, then the tables. `None` for a session
/// that the format has room for.
pub open spec fn session_fault(s: SessionView) -> Option<EncodeError> {
    if s.version.byte() != FORMAT_VERSION {
        Some(EncodeError::UnsupportedVersion(s.version.byte()))
    } else if s.tables.len() > MAX_SHORT_COUNT {
        Some(EncodeError::TooManyTables(s.tables.len() as usize))
    } else {
        tables_fault(s.tables)
    }
}

impl PlayerView {
    /// The player as the format keeps it: without the name.
    pub open spec fn stored(self) -> PlayerView {
        PlayerView { id: self.id, name: Seq::empty(), stack: self.stack }
    }
}

impl EventView {
    /// The event as the format keeps it: a player who sits down loses the
    /// name.
    pub open spec fn stored(self) -> EventView {
        match self {
            EventView::SeatUpdate(u) => EventView::SeatUpdate(
                crate::model::SeatUpdateView {
                    seat: u.seat,
                    player: match u.player {
                        Some(p) => Some(p.stored()),
                        None => None,
                    },
                },
            ),
            other => other,
        }
    }
}

impl TableView {
    /// The table as the format keeps it: without name, rake and blinds.
    pub open spec fn stored(self) -> TableView {
        TableView {
            id: self.id,
            name: Seq::empty(),
            location: self.location,
            table_size: self.table_size,
            rake_percentage: 0,
            rake_cap: 0,
            blinds: Seq::empty(),
            initial_context: self.initial_context.map_values(|p: PlayerView| p.stored()),
            events: self.events.map_values(|e: EventView| e.stored()),
        }
    }
}

impl SessionView {
    /// The session as the format keeps it: without its name and its hero.
    pub open spec fn stored(self) -> SessionView {
        SessionView {
            version: self.version,
            id: self.id,
            name: Seq::empty(),
            tables: self.tables.map_values(|t: TableView| t.stored()),
            hero_id: 0,
        }
    }
}

} // verus!
