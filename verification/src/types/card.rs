//! The playing card: one of 52 rank and suit combinations, or one of two
//! sentinels, in one byte.

use crate::text::{decimal, push_decimal};
use vstd::prelude::*;
use vstd::string::*;

verus! {

/// A [`Card`] in a traditional 52-card deck, `Unknown` for a card that is
/// there but withheld, or `Xx` for a slot that holds no card yet.
#[derive(PartialEq, Eq, Clone, Debug, Copy, Structural)]
pub enum Card {
    AceClubs,
    AceDiamonds,
    AceHearts,
    AceSpades,
    TwoClubs,
    TwoDiamonds,
    TwoHearts,
    TwoSpades,
    ThreeClubs,
    ThreeDiamonds,
    ThreeHearts,
    ThreeSpades,
    FourClubs,
    FourDiamonds,
    FourHearts,
    FourSpades,
    FiveClubs,
    FiveDiamonds,
    FiveHearts,
    FiveSpades,
    SixClubs,
    SixDiamonds,
    SixHearts,
    SixSpades,
    SevenClubs,
    SevenDiamonds,
    SevenHearts,
    SevenSpades,
    EightClubs,
    EightDiamonds,
    EightHearts,
    EightSpades,
    NineClubs,
    NineDiamonds,
    NineHearts,
    NineSpades,
    TenClubs,
    TenDiamonds,
    TenHearts,
    TenSpades,
    JackClubs,
    JackDiamonds,
    JackHearts,
    JackSpades,
    QueenClubs,
    QueenDiamonds,
    QueenHearts,
    QueenSpades,
    KingClubs,
    KingDiamonds,
    KingHearts,
    KingSpades,
    Unknown,
    Xx,
}

/// Why a byte is no card.
#[derive(Debug, Clone, Copy, PartialEq, Eq, Structural)]
pub enum CardError {
    /// The tag given is above 53.
    InvalidU8AsCard(u8),
}

/// The highest tag that stands for a card.
pub const MAX_TAG: u8 = 53;

impl Card {
    /// The tag of a card: rank index times four plus suit index for the deck,
    /// ranks from ace to king and suits clubs, diamonds, hearts, spades; then
    /// the two sentinels.
    pub open spec fn tag(&self) -> u8 {
        match *self {
            Card::AceClubs => 0,
            Card::AceDiamonds => 1,
            Card::AceHearts => 2,
            Card::AceSpades => 3,
            Card::TwoClubs => 4,
            Card::TwoDiamonds => 5,
            Card::TwoHearts => 6,
            Card::TwoSpades => 7,
            Card::ThreeClubs => 8,
            Card::ThreeDiamonds => 9,
            Card::ThreeHearts => 10,
            Card::ThreeSpades => 11,
            Card::FourClubs => 12,
            Card::FourDiamonds => 13,
            Card::FourHearts => 14,
            Card::FourSpades => 15,
            Card::FiveClubs => 16,
            Card::FiveDiamonds => 17,
            Card::FiveHearts => 18,
            Card::FiveSpades => 19,
            Card::SixClubs => 20,
            Card::SixDiamonds => 21,
            Card::SixHearts => 22,
            Card::SixSpades => 23,
            Card::SevenClubs => 24,
            Card::SevenDiamonds => 25,
            Card::SevenHearts => 26,
            Card::SevenSpades => 27,
            Card::EightClubs => 28,
            Card::EightDiamonds => 29,
            Card::EightHearts => 30,
            Card::EightSpades => 31,
            Card::NineClubs => 32,
            Card::NineDiamonds => 33,
            Card::NineHearts => 34,
            Card::NineSpades => 35,
            Card::TenClubs => 36,
            Card::TenDiamonds => 37,
            Card::TenHearts => 38,
            Card::TenSpades => 39,
            Card::JackClubs => 40,
            Card::JackDiamonds => 41,
            Card::JackHearts => 42,
            Card::JackSpades => 43,
            Card::QueenClubs => 44,
            Card::QueenDiamonds => 45,
            Card::QueenHearts => 46,
            Card::QueenSpades => 47,
            Card::KingClubs => 48,
            Card::KingDiamonds => 49,
            Card::KingHearts => 50,
            Card::KingSpades => 51,
            Card::Unknown => 52,
            Card::Xx => 53,
        }
    }

    /// The card that carries `tag`.
    pub open spec fn with_tag(tag: u8) -> Card
        recommends
            tag <= MAX_TAG,
    {
        match tag {
            0 => Card::AceClubs,
            1 => Card::AceDiamonds,
            2 => Card::AceHearts,
            3 => Card::AceSpades,
            4 => Card::TwoClubs,
            5 => Card::TwoDiamonds,
            6 => Card::TwoHearts,
            7 => Card::TwoSpades,
            8 => Card::ThreeClubs,
            9 => Card::ThreeDiamonds,
            10 => Card::ThreeHearts,
            11 => Card::ThreeSpades,
            12 => Card::FourClubs,
            13 => Card::FourDiamonds,
            14 => Card::FourHearts,
            15 => Card::FourSpades,
            16 => Card::FiveClubs,
            17 => Card::FiveDiamonds,
            18 => Card::FiveHearts,
            19 => Card::FiveSpades,
            20 => Card::SixClubs,
            21 => Card::SixDiamonds,
            22 => Card::SixHearts,
            23 => Card::SixSpades,
            24 => Card::SevenClubs,
            25 => Card::SevenDiamonds,
            26 => Card::SevenHearts,
            27 => Card::SevenSpades,
            28 => Card::EightClubs,
            29 => Card::EightDiamonds,
            30 => Card::EightHearts,
            31 => Card::EightSpades,
            32 => Card::NineClubs,
            33 => Card::NineDiamonds,
            34 => Card::NineHearts,
            35 => Card::NineSpades,
            36 => Card::TenClubs,
            37 => Card::TenDiamonds,
            38 => Card::TenHearts,
            39 => Card::TenSpades,
            40 => Card::JackClubs,
            41 => Card::JackDiamonds,
            42 => Card::JackHearts,
            43 => Card::JackSpades,
            44 => Card::QueenClubs,
            45 => Card::QueenDiamonds,
            46 => Card::QueenHearts,
            47 => Card::QueenSpades,
            48 => Card::KingClubs,
            49 => Card::KingDiamonds,
            50 => Card::KingHearts,
            51 => Card::KingSpades,
            52 => Card::Unknown,
            _ => Card::Xx,
        }
    }

    /// Every tag is at most 53, and no two cards share one.
    pub broadcast proof fn lemma_tag(self)
        ensures
            #[trigger] self.tag() <= MAX_TAG,
            Card::with_tag(self.tag()) == self,
    {
    }

    /// Every tag up to 53 belongs to a card.
    pub broadcast proof fn lemma_with_tag(tag: u8)
        requires
            tag <= MAX_TAG,
        ensures
            (#[trigger] Card::with_tag(tag)).tag() == tag,
    {
    }

    /// Converts a [`Card`] to its tag.
    #[inline]
    #[verifier::when_used_as_spec(tag)]
    pub fn to_u8(&self) -> (r: u8)
        ensures
            r == self.tag(),
            r <= MAX_TAG,
    {
        *self as u8
    }

    /// Converts a raw u8 into a [`Card`]; fails on a tag above 53.
    #[inline]
    pub fn from_u8(value: u8) -> (r: Result<Card, CardError>)
        ensures
            value <= MAX_TAG ==> r == Ok::<_, CardError>(Card::with_tag(value)),
            value > MAX_TAG ==> r == Err::<Card, _>(CardError::InvalidU8AsCard(value)),
            r matches Ok(c) ==> c.tag() == value,
    {
        let r = match value {
            0 => Ok(Card::AceClubs),
            1 => Ok(Card::AceDiamonds),
            2 => Ok(Card::AceHearts),
            3 => Ok(Card::AceSpades),
            4 => Ok(Card::TwoClubs),
            5 => Ok(Card::TwoDiamonds),
            6 => Ok(Card::TwoHearts),
            7 => Ok(Card::TwoSpades),
            8 => Ok(Card::ThreeClubs),
            9 => Ok(Card::ThreeDiamonds),
            10 => Ok(Card::ThreeHearts),
            11 => Ok(Card::ThreeSpades),
            12 => Ok(Card::FourClubs),
            13 => Ok(Card::FourDiamonds),
            14 => Ok(Card::FourHearts),
            15 => Ok(Card::FourSpades),
            16 => Ok(Card::FiveClubs),
            17 => Ok(Card::FiveDiamonds),
            18 => Ok(Card::FiveHearts),
            19 => Ok(Card::FiveSpades),
            20 => Ok(Card::SixClubs),
            21 => Ok(Card::SixDiamonds),
            22 => Ok(Card::SixHearts),
            23 => Ok(Card::SixSpades),
            24 => Ok(Card::SevenClubs),
            25 => Ok(Card::SevenDiamonds),
            26 => Ok(Card::SevenHearts),
            27 => Ok(Card::SevenSpades),
            28 => Ok(Card::EightClubs),
            29 => Ok(Card::EightDiamonds),
            30 => Ok(Card::EightHearts),
            31 => Ok(Card::EightSpades),
            32 => Ok(Card::NineClubs),
            33 => Ok(Card::NineDiamonds),
            34 => Ok(Card::NineHearts),
            35 => Ok(Card::NineSpades),
            36 => Ok(Card::TenClubs),
            37 => Ok(Card::TenDiamonds),
            38 => Ok(Card::TenHearts),
            39 => Ok(Card::TenSpades),
            40 => Ok(Card::JackClubs),
            41 => Ok(Card::JackDiamonds),
            42 => Ok(Card::JackHearts),
            43 => Ok(Card::JackSpades),
            44 => Ok(Card::QueenClubs),
            45 => Ok(Card::QueenDiamonds),
            46 => Ok(Card::QueenHearts),
            47 => Ok(Card::QueenSpades),
            48 => Ok(Card::KingClubs),
            49 => Ok(Card::KingDiamonds),
            50 => Ok(Card::KingHearts),
            51 => Ok(Card::KingSpades),
            52 => Ok(Card::Unknown),
            53 => Ok(Card::Xx),
            _ => Err(CardError::InvalidU8AsCard(value)),
        };
        r
    }

    /// The two characters by which a card is written: rank, then suit; `??`
    /// for a withheld card and `Xx` for an empty slot.
    pub open spec fn notation(&self) -> Seq<char> {
        if self.tag() == 52 {
            seq!['?', '?']
        } else if self.tag() == 53 {
            seq!['X', 'x']
        } else {
            seq![rank_symbol(self.tag() as int / 4), suit_symbol(self.tag() as int % 4)]
        }
    }

    /// The card in its two-character notation.
    pub fn to_string(&self) -> (r: String)
        ensures
            r@ == self.notation(),
    {
        let tag = self.to_u8();
        if tag == 52 {
            proof {
                reveal_strlit("??");
            }
            let r = String::from_str("??");
            assert(r@ =~= self.notation());
            r
        } else if tag == 53 {
            proof {
                reveal_strlit("Xx");
            }
            let r = String::from_str("Xx");
            assert(r@ =~= self.notation());
            r
        } else {
            let mut r = String::from_str(rank_str(tag / 4));
            r.append(suit_str(tag % 4));
            assert(r@ =~= self.notation());
            r
        }
    }
}

/// The character for a rank, ace first and king last.
pub open spec fn rank_symbol(rank: int) -> char
    recommends
        0 <= rank < 13,
{
    seq!['A', '2', '3', '4', '5', '6', '7', '8', '9', 'T', 'J', 'Q', 'K'][rank]
}

/// The character for a suit: clubs, diamonds, hearts, spades.
pub open spec fn suit_symbol(suit: int) -> char
    recommends
        0 <= suit < 4,
{
    seq!['c', 'd', 'h', 's'][suit]
}

fn rank_str(rank: u8) -> (r: &'static str)
    requires
        rank < 13,
    ensures
        r@ == seq![rank_symbol(rank as int)],
{
    proof {
        reveal_strlit("A");
        reveal_strlit("2");
        reveal_strlit("3");
        reveal_strlit("4");
        reveal_strlit("5");
        reveal_strlit("6");
        reveal_strlit("7");
        reveal_strlit("8");
        reveal_strlit("9");
        reveal_strlit("T");
        reveal_strlit("J");
        reveal_strlit("Q");
        reveal_strlit("K");
    }
    let r = match rank {
        0 => "A",
        1 => "2",
        2 => "3",
        3 => "4",
        4 => "5",
        5 => "6",
        6 => "7",
        7 => "8",
        8 => "9",
        9 => "T",
        10 => "J",
        11 => "Q",
        _ => "K",
    };
    assert(r@ =~= seq![rank_symbol(rank as int)]);
    r
}

fn suit_str(suit: u8) -> (r: &'static str)
    requires
        suit < 4,
    ensures
        r@ == seq![suit_symbol(suit as int)],
{
    proof {
        reveal_strlit("c");
        reveal_strlit("d");
        reveal_strlit("h");
        reveal_strlit("s");
    }
    let r = match suit {
        0 => "c",
        1 => "d",
        2 => "h",
        _ => "s",
    };
    assert(r@ =~= seq![suit_symbol(suit as int)]);
    r
}

impl CardError {
    /// What the error says.
    pub open spec fn message(&self) -> Seq<char> {
        match *self {
            CardError::InvalidU8AsCard(tag) => "Card enum variant tag "@ + decimal(tag as nat)
                + " is beyond range [0,53]."@,
        }
    }

    /// The error as a sentence.
    pub fn to_string(&self) -> (r: String)
        ensures
            r@ == self.message(),
    {
        match *self {
            CardError::InvalidU8AsCard(tag) => {
                let mut r = String::from_str("Card enum variant tag ");
                push_decimal(&mut r, tag as u64);
                r.append(" is beyond range [0,53].");
                r
            },
        }
    }
}

} // verus!
