//! The community-card board: five card slots of six bits each in one 32-bit
//! word. The two highest bits are not used.

use crate::types::ErrorKind;
use crate::types::card::{Card, CardError, MAX_TAG};
use crate::wire::{read_u32, take_u32, u32_le, write_u32};
use vstd::prelude::*;
use vstd::string::*;

verus! {

/// Five [`Card`] slots. A slot that holds no card yet holds `Card::Xx`.
#[derive(Debug, Clone, Copy, PartialEq, Eq, Hash)]
pub struct Board(u32);

/// Why a slot could not be reached, or a board not read.
#[derive(Debug, Clone, Copy, PartialEq, Eq, Structural)]
pub enum BoardError {
    /// A slot was asked for that the board does not have.
    IndexOutOfBounds(usize),
    /// A slot of a packed word holds a tag that is no card.
    InvalidCard(CardError),
    /// The bytes to read from ran out.
    IoError(ErrorKind),
}

/// The number of slots on a board.
pub const SLOTS: usize = 5;

/// The six bits of `word` that make up slot `index`.
pub open spec fn slot_tag(word: u32, index: int) -> u8
    recommends
        0 <= index < SLOTS,
{
    ((word >> ((6 * index) as u32)) & 0x3F) as u8
}

/// The tag of the lowest slot of `word` that is no card, if there is one.
pub open spec fn first_bad_tag(word: u32) -> Option<u8> {
    if slot_tag(word, 0) > MAX_TAG {
        Some(slot_tag(word, 0))
    } else if slot_tag(word, 1) > MAX_TAG {
        Some(slot_tag(word, 1))
    } else if slot_tag(word, 2) > MAX_TAG {
        Some(slot_tag(word, 2))
    } else if slot_tag(word, 3) > MAX_TAG {
        Some(slot_tag(word, 3))
    } else if slot_tag(word, 4) > MAX_TAG {
        Some(slot_tag(word, 4))
    } else {
        None
    }
}

/// Whether each of the five slots of `word` holds the tag of a card.
pub open spec fn valid_word(word: u32) -> bool {
    forall|i: int| 0 <= i < SLOTS ==> slot_tag(word, i) <= MAX_TAG
}

/// The word whose slots hold the tags `t0` to `t4`, lowest slot first.
pub open spec fn pack_tags(t0: u8, t1: u8, t2: u8, t3: u8, t4: u8) -> u32 {
    (t0 as u32) | ((t1 as u32) << 6) | ((t2 as u32) << 12) | ((t3 as u32) << 18) | ((t4 as u32)
        << 24)
}

/// A word is valid exactly when no slot of it is bad.
pub proof fn lemma_valid_word(word: u32)
    ensures
        valid_word(word) <==> first_bad_tag(word).is_none(),
{
    if first_bad_tag(word).is_none() {
        assert forall|i: int| 0 <= i < SLOTS implies slot_tag(word, i) <= MAX_TAG by {
            assert(i == 0 || i == 1 || i == 2 || i == 3 || i == 4);
        }
    }
}

/// The slots of a packed word hold the tags it was packed from.
pub proof fn lemma_pack_tags(t0: u8, t1: u8, t2: u8, t3: u8, t4: u8)
    requires
        t0 < 64,
        t1 < 64,
        t2 < 64,
        t3 < 64,
        t4 < 64,
    ensures
        slot_tag(pack_tags(t0, t1, t2, t3, t4), 0) == t0,
        slot_tag(pack_tags(t0, t1, t2, t3, t4), 1) == t1,
        slot_tag(pack_tags(t0, t1, t2, t3, t4), 2) == t2,
        slot_tag(pack_tags(t0, t1, t2, t3, t4), 3) == t3,
        slot_tag(pack_tags(t0, t1, t2, t3, t4), 4) == t4,
{
    let w = pack_tags(t0, t1, t2, t3, t4);
    assert(((w >> 0u32) & 0x3F) as u8 == t0 && ((w >> 6u32) & 0x3F) as u8 == t1 && ((w >> 12u32)
        & 0x3F) as u8 == t2 && ((w >> 18u32) & 0x3F) as u8 == t3 && ((w >> 24u32) & 0x3F) as u8
        == t4) by (bit_vector)
        requires
            t0 < 64,
            t1 < 64,
            t2 < 64,
            t3 < 64,
            t4 < 64,
            w == (t0 as u32) | ((t1 as u32) << 6) | ((t2 as u32) << 12) | ((t3 as u32) << 18) | ((
            t4 as u32) << 24),
    ;
}

/// What putting the six bits `tag` at `shift` does to each slot of `word`:
/// the slot at `shift` holds `tag`, every other slot what it held.
proof fn lemma_put(word: u32, shift: u32, tag: u32, other: u32)
    requires
        shift == 0 || shift == 6 || shift == 12 || shift == 18 || shift == 24,
        other == 0 || other == 6 || other == 12 || other == 18 || other == 24,
        tag < 64,
    ensures
        ((((word & !(0x3Fu32 << shift)) | (tag << shift)) >> other) & 0x3F) == (if other == shift {
            tag
        } else {
            (word >> other) & 0x3F
        }),
{
    assert(((((word & !(0x3Fu32 << shift)) | (tag << shift)) >> other) & 0x3F) == (if other
        == shift {
        tag
    } else {
        (word >> other) & 0x3F
    })) by (bit_vector)
        requires
            shift == 0 || shift == 6 || shift == 12 || shift == 18 || shift == 24,
            other == 0 || other == 6 || other == 12 || other == 18 || other == 24,
            tag < 64,
    ;
}

impl BoardError {
    /// What the error says.
    pub open spec fn message(&self) -> Seq<char> {
        match *self {
            BoardError::IndexOutOfBounds(_) => "Index out of bounds, boards contain 5 cards."@,
            BoardError::InvalidCard(e) => e.message(),
            BoardError::IoError(kind) => kind.message(),
        }
    }

    /// The error as a sentence.
    pub fn to_string(&self) -> (r: String)
        ensures
            r@ == self.message(),
    {
        match *self {
            BoardError::IndexOutOfBounds(_) => String::from_str(
                "Index out of bounds, boards contain 5 cards.",
            ),
            BoardError::InvalidCard(e) => e.to_string(),
            BoardError::IoError(kind) => kind.to_string(),
        }
    }
}

impl Board {
    /// The packed word.
    pub closed spec fn word(self) -> u32 {
        self.0
    }

    /// The board that a packed word stands for.
    pub closed spec fn from_word(word: u32) -> Board {
        Board(word)
    }

    #[verifier::type_invariant]
    closed spec fn slots_hold_cards(self) -> bool {
        valid_word(self.0)
    }

    /// Whether every slot holds a card. Every board that this library hands
    /// out does.
    pub open spec fn valid(self) -> bool {
        valid_word(self.word())
    }

    /// The card in slot `index`.
    pub open spec fn card_at(self, index: int) -> Card
        recommends
            0 <= index < SLOTS,
    {
        Card::with_tag(slot_tag(self.word(), index))
    }

    /// The five cards, lowest slot first.
    pub open spec fn cards(self) -> Seq<Card> {
        Seq::new(SLOTS as nat, |i: int| self.card_at(i))
    }

    /// The two bits above the slots, which hold nothing.
    pub open spec fn reserved(self) -> u32 {
        self.word() >> 30
    }

    /// A board is its five cards and its two unused bits.
    pub proof fn lemma_same_cards(self, other: Board)
        requires
            self.valid(),
            other.valid(),
            self.cards() == other.cards(),
            self.reserved() == other.reserved(),
        ensures
            self == other,
    {
        let a = self.word();
        let b = other.word();
        assert forall|i: int| 0 <= i < SLOTS implies slot_tag(a, i) == slot_tag(b, i) by {
            assert(self.cards()[i] == self.card_at(i));
            assert(other.cards()[i] == other.card_at(i));
            assert(slot_tag(a, i) <= MAX_TAG && slot_tag(b, i) <= MAX_TAG);
            Card::lemma_with_tag(slot_tag(a, i));
            Card::lemma_with_tag(slot_tag(b, i));
        }
        assert(slot_tag(a, 0) == slot_tag(b, 0));
        assert(slot_tag(a, 1) == slot_tag(b, 1));
        assert(slot_tag(a, 2) == slot_tag(b, 2));
        assert(slot_tag(a, 3) == slot_tag(b, 3));
        assert(slot_tag(a, 4) == slot_tag(b, 4));
        assert(a == b) by (bit_vector)
            requires
                ((a >> 0u32) & 0x3F) as u8 == ((b >> 0u32) & 0x3F) as u8,
                ((a >> 6u32) & 0x3F) as u8 == ((b >> 6u32) & 0x3F) as u8,
                ((a >> 12u32) & 0x3F) as u8 == ((b >> 12u32) & 0x3F) as u8,
                ((a >> 18u32) & 0x3F) as u8 == ((b >> 18u32) & 0x3F) as u8,
                ((a >> 24u32) & 0x3F) as u8 == ((b >> 24u32) & 0x3F) as u8,
                a >> 30 == b >> 30,
        ;
        self.lemma_from_word_word();
        other.lemma_from_word_word();
    }

    /// The four bytes that a board occupies on the wire.
    pub open spec fn wire(self) -> Seq<u8> {
        u32_le(self.word())
    }

    /// What `deserialize` makes of the front of `bytes`, with what is left.
    pub open spec fn parse(bytes: Seq<u8>) -> Result<(Board, Seq<u8>), BoardError> {
        match take_u32(bytes) {
            Some((word, rest)) => match first_bad_tag(word) {
                Some(tag) => Err(BoardError::InvalidCard(CardError::InvalidU8AsCard(tag))),
                None => Ok((Board::from_word(word), rest)),
            },
            None => Err(BoardError::IoError(ErrorKind::UnexpectedEof)),
        }
    }

    /// A board and its packed word determine each other.
    pub broadcast proof fn lemma_word_from_word(word: u32)
        ensures
            (#[trigger] Board::from_word(word)).word() == word,
    {
    }

    /// A board and its packed word determine each other.
    pub broadcast proof fn lemma_from_word_word(self)
        ensures
            Board::from_word(#[trigger] self.word()) == self,
    {
    }

    /// A board with every slot empty.
    pub fn new() -> (r: Board)
        ensures
            r.valid(),
            r.cards() == Seq::new(SLOTS as nat, |i: int| Card::Xx),
            r.reserved() == 0,
            r == Board::from_word(pack_tags(53, 53, 53, 53, 53)),
    {
        let xx = Card::Xx.to_u8() as u32;
        let packed = (xx << 24) | (xx << 18) | (xx << 12) | (xx << 6) | xx;
        proof {
            lemma_pack_tags(53, 53, 53, 53, 53);
            assert(packed == pack_tags(53, 53, 53, 53, 53) && packed >> 30 == 0) by (bit_vector)
                requires
                    packed == (53u32 << 24) | (53u32 << 18) | (53u32 << 12) | (53u32 << 6) | 53u32,
            ;
            assert forall|i: int| 0 <= i < SLOTS implies slot_tag(packed, i) == 53 by {
                assert(i == 0 || i == 1 || i == 2 || i == 3 || i == 4);
            }
        }
        let r = Board(packed);
        assert(r.cards() =~= Seq::new(SLOTS as nat, |i: int| Card::Xx));
        r
    }

    /// Set a card at an index within the board. Fails, and changes nothing,
    /// when the board has no such slot; every other slot keeps its card.
    #[inline]
    pub fn set_card(&mut self, index: usize, card: Card) -> (r: Result<(), BoardError>)
        ensures
            index >= SLOTS ==> r == Err::<(), _>(BoardError::IndexOutOfBounds(index))
                && *final(self) == *old(self),
            index < SLOTS ==> r == Ok::<_, BoardError>(()) && final(self).cards() == old(
                self,
            ).cards().update(index as int, card),
            final(self).valid(),
            final(self).reserved() == old(self).reserved(),
    {
        if index >= SLOTS {
            proof {
                use_type_invariant(&*self);
            }
            return Err(BoardError::IndexOutOfBounds(index));
        }
        self.set_card_unchecked(index, card);
        Ok(())
    }

    /// Set a card at an index that the caller has shown to be on the board.
    #[inline]
    fn set_card_unchecked(&mut self, index: usize, card: Card)
        requires
            index < SLOTS,
        ensures
            final(self).cards() == old(self).cards().update(index as int, card),
            final(self).valid(),
            final(self).reserved() == old(self).reserved(),
    {
        proof {
            use_type_invariant(&*self);
        }
        // 0x3F mask preserves rightmost 6 bits
        let tag = card.to_u8();
        let card_val = (tag as u32) & 0x3F;
        let shift = (index * 6) as u32;
        let word = (self.0 & !(0x3Fu32 << shift)) | (card_val << shift);
        proof {
            assert(card_val == tag as u32) by (bit_vector)
                requires
                    tag <= 53,
                    card_val == (tag as u32) & 0x3F,
            ;
            card.lemma_tag();
            assert forall|i: int| 0 <= i < SLOTS implies slot_tag(word, i) == (if i == index {
                tag
            } else {
                slot_tag(self.0, i)
            }) by {
                lemma_put(self.0, shift, card_val, (6 * i) as u32);
            }
            let before = self.0;
            assert(word >> 30 == before >> 30) by (bit_vector)
                requires
                    shift == 0 || shift == 6 || shift == 12 || shift == 18 || shift == 24,
                    card_val < 64,
                    word == (before & !(0x3Fu32 << shift)) | (card_val << shift),
            ;
        }
        self.0 = word;
        assert(self.cards() =~= old(self).cards().update(index as int, card));
    }

    /// Gets the card at the given index (0 to 4). Fails when the board has
    /// no such slot.
    #[inline]
    pub fn get_card(&self, index: usize) -> (r: Result<Card, BoardError>)
        ensures
            index >= SLOTS ==> r == Err::<Card, _>(BoardError::IndexOutOfBounds(index)),
            index < SLOTS ==> r == Ok::<_, BoardError>(self.card_at(index as int)),
            self.valid(),
    {
        proof {
            use_type_invariant(self);
        }
        if index >= SLOTS {
            return Err(BoardError::IndexOutOfBounds(index));
        }
        Ok(self.get_card_unchecked(index))
    }

    /// Gets the card at an index that the caller has shown to be on the
    /// board. The slot holds a card because every slot of a board does.
    #[inline]
    fn get_card_unchecked(&self, index: usize) -> (r: Card)
        requires
            index < SLOTS,
        ensures
            r == self.card_at(index as int),
    {
        proof {
            use_type_invariant(self);
        }
        let shift = (index * 6) as u32;
        let word = self.0;
        assert((word >> shift) & 0x3F < 64) by (bit_vector);
        let card_val = ((word >> shift) & 0x3F) as u8;
        assert(card_val == slot_tag(word, index as int));
        match Card::from_u8(card_val) {
            Ok(card) => card,
            Err(_) => Card::Xx,
        }
    }

    /// Convert a [`Board`] to an array of five [`Card`]s. Never fails.
    pub fn to_array(&self) -> (r: Result<[Card; 5], BoardError>)
        ensures
            r matches Ok(cards) && cards@ == self.cards(),
            self.valid(),
    {
        let c0 = self.get_card(0)?;
        let c1 = self.get_card(1)?;
        let c2 = self.get_card(2)?;
        let c3 = self.get_card(3)?;
        let c4 = self.get_card(4)?;
        let cards = [c0, c1, c2, c3, c4];
        assert(cards@ =~= self.cards());
        Ok(cards)
    }

    /// The board that holds `cards`, lowest slot first, and nothing in the
    /// two unused bits.
    pub open spec fn of(cards: Seq<Card>) -> Board
        recommends
            cards.len() == SLOTS,
    {
        Board::from_word(
            pack_tags(cards[0].tag(), cards[1].tag(), cards[2].tag(), cards[3].tag(), cards[4].tag()),
        )
    }

    /// `of` gives a board of cards, and the cards it was given.
    pub proof fn lemma_of(cards: Seq<Card>)
        requires
            cards.len() == SLOTS,
        ensures
            Board::of(cards).valid(),
            Board::of(cards).cards() == cards,
            Board::of(cards).reserved() == 0,
    {
        let t0 = cards[0].tag();
        let t1 = cards[1].tag();
        let t2 = cards[2].tag();
        let t3 = cards[3].tag();
        let t4 = cards[4].tag();
        let word = pack_tags(t0, t1, t2, t3, t4);
        cards[0].lemma_tag();
        cards[1].lemma_tag();
        cards[2].lemma_tag();
        cards[3].lemma_tag();
        cards[4].lemma_tag();
        lemma_pack_tags(t0, t1, t2, t3, t4);
        assert forall|i: int| 0 <= i < SLOTS implies slot_tag(word, i) == cards[i].tag() by {
            assert(i == 0 || i == 1 || i == 2 || i == 3 || i == 4);
        }
        assert(word >> 30 == 0) by (bit_vector)
            requires
                t0 < 64,
                t1 < 64,
                t2 < 64,
                t3 < 64,
                t4 < 64,
                word == (t0 as u32) | ((t1 as u32) << 6) | ((t2 as u32) << 12) | ((t3 as u32)
                    << 18) | ((t4 as u32) << 24),
        ;
        assert(Board::of(cards).cards() =~= cards);
    }

    /// Convert an array of [`Card`]s to a [`Board`].
    pub fn from_array(cards: [Card; 5]) -> (r: Board)
        ensures
            r == Board::of(cards@),
            r.valid(),
            r.cards() == cards@,
            r.reserved() == 0,
    {
        let mut board = Board::new();
        let mut i: usize = 0;
        while i < SLOTS
            invariant
                0 <= i <= SLOTS,
                board.valid(),
                board.reserved() == 0,
                forall|j: int| 0 <= j < i ==> board.cards()[j] == cards@[j],
            decreases SLOTS - i,
        {
            board.set_card_unchecked(i, cards[i]);
            i += 1;
        }
        assert(board.cards() =~= cards@);
        proof {
            Board::lemma_of(cards@);
            board.lemma_same_cards(Board::of(cards@));
        }
        board
    }

    /// Appends the packed word to `writer`, least significant byte first.
    pub fn serialize(&self, writer: &mut Vec<u8>)
        ensures
            final(writer)@ == old(writer)@ + self.wire(),
            self.valid(),
    {
        proof {
            use_type_invariant(self);
        }
        write_u32(writer, self.0);
    }

    /// Takes a `Board` off the front of `reader`. Fails when fewer than four
    /// bytes are there, or with the tag of the lowest slot that holds no
    /// card. A failure leaves the reader as it was.
    pub fn deserialize(reader: &mut &[u8]) -> (r: Result<Board, BoardError>)
        ensures
            match Board::parse(old(reader)@) {
                Ok((b, rest)) => r == Ok::<_, BoardError>(b) && b.valid() && final(reader)@
                    == rest,
                Err(e) => r == Err::<Board, _>(e) && final(reader)@ == old(reader)@,
            },
    {
        let mut probe = *reader;
        let packed = match read_u32(&mut probe) {
            Some(packed) => packed,
            None => {
                return Err(BoardError::IoError(ErrorKind::UnexpectedEof));
            },
        };
        let mut i: usize = 0;
        while i < SLOTS
            invariant
                0 <= i <= SLOTS,
                forall|j: int| 0 <= j < i ==> slot_tag(packed, j) <= MAX_TAG,
                take_u32(old(reader)@) == Some((packed, probe@)),
                reader@ == old(reader)@,
            decreases SLOTS - i,
        {
            let shift = (i * 6) as u32;
            assert((packed >> shift) & 0x3F < 64) by (bit_vector);
            let tag = ((packed >> shift) & 0x3F) as u8;
            assert(tag == slot_tag(packed, i as int));
            if tag > MAX_TAG {
                assert(i == 0 || i == 1 || i == 2 || i == 3 || i == 4);
                return Err(BoardError::InvalidCard(CardError::InvalidU8AsCard(tag)));
            }
            i += 1;
        }
        *reader = probe;
        Ok(Board(packed))
    }
}

/// A valid board that was written out reads back as itself, whatever follows
/// it.
pub proof fn lemma_board_round_trip(b: Board, tail: Seq<u8>)
    requires
        b.valid(),
    ensures
        b.wire().len() == 4,
        Board::parse(b.wire() + tail) == Ok::<_, BoardError>((b, tail)),
{
    crate::wire::lemma_u32_le_round_trip(b.word(), tail);
    lemma_valid_word(b.word());
    b.lemma_from_word_word();
}

} // verus!
