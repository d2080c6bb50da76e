//! The player action: a two-bit kind and a 30-bit bet size in one 32-bit word.

use crate::text::{decimal, push_decimal};
use crate::types::ErrorKind;
use crate::wire::{read_u32, take_u32, u32_le, write_u32};
use vstd::prelude::*;
use vstd::string::*;

verus! {

/// The action of a player at a given point in a hand.
/// Most significant two bits are the [`ActionType`].
/// Least 30 bits are the bet size in cents.
#[derive(Debug, Clone, Copy, PartialEq, Eq, Hash, Structural)]
pub struct Action(u32);

/// A 2-bit value denoting the action's type.
#[derive(Clone, Copy, PartialEq, Eq, Debug, Structural)]
pub enum ActionType {
    CheckFold,
    Call,
    Bet,
    Raise,
}

/// Why an action, or the kind of one, could not be made or read.
#[derive(Debug, Clone, Copy, PartialEq, Eq, Structural)]
pub enum ActionError {
    /// The number given is above 3 and names no kind.
    InvalidU8AsActionType(u8),
    /// The bet size given is 2^30 or more.
    CentsExceedsRange(u32),
    /// The bytes to read from ran out.
    IoError(ErrorKind),
}

/// The first bet size that no longer fits in 30 bits.
pub const CENTS_LIMIT: u32 = 0x4000_0000;

impl ActionError {
    /// What the error says.
    pub open spec fn message(&self) -> Seq<char> {
        match *self {
            ActionError::InvalidU8AsActionType(value) => "Invalid u8 "@ + decimal(value as nat)
                + " as ActionType; must be in 0..=3."@,
            ActionError::CentsExceedsRange(cents) => "Cents value "@ + decimal(cents as nat)
                + " is exceeds 2^30 - 1."@,
            ActionError::IoError(kind) => kind.message(),
        }
    }

    /// The error as a sentence.
    pub fn to_string(&self) -> (r: String)
        ensures
            r@ == self.message(),
    {
        match *self {
            ActionError::InvalidU8AsActionType(value) => {
                let mut r = String::from_str("Invalid u8 ");
                push_decimal(&mut r, value as u64);
                r.append(" as ActionType; must be in 0..=3.");
                r
            },
            ActionError::CentsExceedsRange(cents) => {
                let mut r = String::from_str("Cents value ");
                push_decimal(&mut r, cents as u64);
                r.append(" is exceeds 2^30 - 1.");
                r
            },
            ActionError::IoError(kind) => kind.to_string(),
        }
    }
}

impl ActionType {
    /// The two-bit number of a kind.
    pub open spec fn code(self) -> u8 {
        match self {
            ActionType::CheckFold => 0,
            ActionType::Call => 1,
            ActionType::Bet => 2,
            ActionType::Raise => 3,
        }
    }

    /// The kind that carries `code`.
    pub open spec fn with_code(code: u8) -> ActionType
        recommends
            code <= 3,
    {
        match code {
            0 => ActionType::CheckFold,
            1 => ActionType::Call,
            2 => ActionType::Bet,
            _ => ActionType::Raise,
        }
    }

    /// Safely constructs a [`ActionType`] from a raw u8; fails above 3.
    #[inline]
    pub fn from_u8(value: u8) -> (r: Result<ActionType, ActionError>)
        ensures
            value <= 3 ==> r == Ok::<_, ActionError>(ActionType::with_code(value)),
            value > 3 ==> r == Err::<ActionType, _>(ActionError::InvalidU8AsActionType(value)),
            r matches Ok(at) ==> at.code() == value,
    {
        match value {
            0 => Ok(ActionType::CheckFold),
            1 => Ok(ActionType::Call),
            2 => Ok(ActionType::Bet),
            3 => Ok(ActionType::Raise),
            _ => Err(ActionError::InvalidU8AsActionType(value)),
        }
    }

    /// Constructs a [`ActionType`] from a number that the caller has shown to
    /// be one of the four.
    fn from_u8_unchecked(value: u8) -> (r: ActionType)
        requires
            value <= 3,
        ensures
            r == ActionType::with_code(value),
            r.code() == value,
    {
        match value {
            0 => ActionType::CheckFold,
            1 => ActionType::Call,
            2 => ActionType::Bet,
            _ => ActionType::Raise,
        }
    }

    /// Converts [`ActionType`] to its `u8` representation.
    #[inline]
    pub fn to_u8(self) -> (r: u8)
        ensures
            r == self.code(),
            r <= 3,
            ActionType::with_code(r) == self,
    {
        self as u8
    }
}

impl Action {
    /// The packed word.
    pub closed spec fn word(self) -> u32 {
        self.0
    }

    /// The action that a packed word stands for. Every word is one.
    pub closed spec fn from_word(word: u32) -> Action {
        Action(word)
    }

    /// The word that holds `at` above `cents`.
    pub open spec fn pack(at: ActionType, cents: u32) -> u32
        recommends
            cents < CENTS_LIMIT,
    {
        ((at.code() as u32) << 30) | cents
    }

    /// The kind: the two highest bits of the word.
    pub open spec fn spec_action_type(&self) -> ActionType {
        ActionType::with_code((self.word() >> 30) as u8)
    }

    /// The bet size: the 30 lowest bits of the word.
    pub open spec fn spec_cents(&self) -> u32 {
        self.word() & 0x3FFF_FFFF
    }

    /// The four bytes that an action occupies when written out whole.
    pub open spec fn wire(self) -> Seq<u8> {
        u32_le(self.word())
    }

    /// What `deserialize` makes of the front of `bytes`, with what is left.
    pub open spec fn parse(bytes: Seq<u8>) -> Result<(Action, Seq<u8>), ActionError> {
        match take_u32(bytes) {
            Some((word, rest)) => Ok((Action::from_word(word), rest)),
            None => Err(ActionError::IoError(ErrorKind::UnexpectedEof)),
        }
    }

    /// An action and its packed word determine each other.
    pub broadcast proof fn lemma_word_from_word(word: u32)
        ensures
            (#[trigger] Action::from_word(word)).word() == word,
    {
    }

    /// An action and its packed word determine each other.
    pub broadcast proof fn lemma_from_word_word(self)
        ensures
            Action::from_word(#[trigger] self.word()) == self,
    {
    }

    /// The bet size of any action is below 2^30, and kind and bet size
    /// together give the action back.
    pub proof fn lemma_fields(self)
        ensures
            self.spec_cents() < CENTS_LIMIT,
            Action::from_word(Action::pack(self.spec_action_type(), self.spec_cents())) == self,
    {
        let w = self.word();
        let k = (w >> 30) as u8;
        assert(k <= 3 && k as u32 == w >> 30 && w & 0x3FFF_FFFF < 0x4000_0000 && ((w >> 30) << 30)
            | (w & 0x3FFF_FFFF) == w) by (bit_vector)
            requires
                k == (w >> 30) as u8,
        ;
        assert(ActionType::with_code(k).code() == k);
    }

    /// Kind and bet size read back from a packed pair are the pair.
    pub proof fn lemma_pack(at: ActionType, cents: u32)
        requires
            cents < CENTS_LIMIT,
        ensures
            Action::from_word(Action::pack(at, cents)).spec_action_type() == at,
            Action::from_word(Action::pack(at, cents)).spec_cents() == cents,
    {
        let c = at.code() as u32;
        let w = (c << 30) | cents;
        assert((w >> 30) as u8 == c && w & 0x3FFF_FFFF == cents) by (bit_vector)
            requires
                c <= 3,
                cents < 0x4000_0000,
                w == (c << 30) | cents,
        ;
    }

    /// Create an [`Action`] with bounds checking; fails when `cents` needs
    /// more than 30 bits.
    pub fn new(at: ActionType, cents: u32) -> (r: Result<Action, ActionError>)
        ensures
            cents >= CENTS_LIMIT ==> r == Err::<Action, _>(ActionError::CentsExceedsRange(cents)),
            cents < CENTS_LIMIT ==> r == Ok::<_, ActionError>(
                Action::from_word(Action::pack(at, cents)),
            ),
            r matches Ok(a) ==> a.spec_action_type() == at && a.spec_cents() == cents,
    {
        if cents >= CENTS_LIMIT {
            return Err(ActionError::CentsExceedsRange(cents));
        }
        Ok(Action::new_unchecked(at.to_u8(), cents))
    }

    /// Create an [`Action`] from a kind and a bet size that the caller has
    /// shown to be in range.
    fn new_unchecked(at: u8, cents: u32) -> (r: Action)
        requires
            at <= 3,
            cents < CENTS_LIMIT,
        ensures
            r == Action::from_word(Action::pack(ActionType::with_code(at), cents)),
            r.spec_action_type() == ActionType::with_code(at),
            r.spec_cents() == cents,
    {
        proof {
            Action::lemma_pack(ActionType::with_code(at), cents);
            assert(cents & 0x3FFF_FFFF == cents) by (bit_vector)
                requires
                    cents < 0x4000_0000,
            ;
        }
        let value = ((at as u32) << 30) | (cents & 0x3FFF_FFFF);
        Action(value)
    }

    /// Retrieves the [`ActionType`] from the `Action`.
    #[verifier::when_used_as_spec(spec_action_type)]
    pub fn action_type(&self) -> (r: ActionType)
        ensures
            r == self.spec_action_type(),
    {
        let word = self.0;
        assert(word >> 30 <= 3) by (bit_vector);
        let at = (word >> 30) as u8;
        ActionType::from_u8_unchecked(at)
    }

    /// Retrieves the `cents` value from the `Action`.
    #[verifier::when_used_as_spec(spec_cents)]
    pub fn cents(&self) -> (r: u32)
        ensures
            r == self.spec_cents(),
            r < CENTS_LIMIT,
    {
        proof {
            self.lemma_fields();
        }
        self.0 & 0x3FFF_FFFF
    }

    /// Appends the packed word to `writer`, least significant byte first.
    pub fn serialize(&self, writer: &mut Vec<u8>)
        ensures
            final(writer)@ == old(writer)@ + self.wire(),
    {
        write_u32(writer, self.0);
    }

    /// Takes an `Action` off the front of `reader`. A reader with fewer than
    /// four bytes is the only failure, and leaves the reader as it was.
    pub fn deserialize(reader: &mut &[u8]) -> (r: Result<Action, ActionError>)
        ensures
            match Action::parse(old(reader)@) {
                Ok((a, rest)) => r == Ok::<_, ActionError>(a) && final(reader)@ == rest,
                Err(e) => r == Err::<Action, _>(e) && final(reader)@ == old(reader)@,
            },
    {
        let value = match read_u32(reader) {
            Some(value) => value,
            None => {
                return Err(ActionError::IoError(ErrorKind::UnexpectedEof));
            },
        };
        let at_u8 = (value >> 30) as u8;
        assert(at_u8 <= 3) by (bit_vector)
            requires
                at_u8 == (value >> 30) as u8,
        ;
        // Two bits always name a kind, so this never fails.
        match ActionType::from_u8(at_u8) {
            Ok(_) => Ok(Action(value)),
            Err(e) => Err(e),
        }
    }
}

/// An action that was written out reads back as itself, whatever follows it.
pub proof fn lemma_action_round_trip(a: Action, tail: Seq<u8>)
    ensures
        a.wire().len() == 4,
        Action::parse(a.wire() + tail) == Ok::<_, ActionError>((a, tail)),
{
    crate::wire::lemma_u32_le_round_trip(a.word(), tail);
    a.lemma_from_word_word();
}

} // verus!
