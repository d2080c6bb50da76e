//! The protocol version: two four-bit numbers in one byte.

use crate::text::{decimal, push_decimal};
use crate::types::ErrorKind;
use crate::wire::{read_u8, take_u8};
use vstd::prelude::*;
use vstd::string::*;

verus! {

/// A major and a minor number, each below 16, packed as `major << 4 | minor`.
#[derive(Clone, Copy, PartialEq, Eq, Debug, Structural)]
pub struct Version(u8);

/// Why a version could not be made or read.
#[derive(Debug, Clone, Copy, PartialEq, Eq, Structural)]
pub enum VersionError {
    /// The minor number given is 16 or more.
    MinorVersionExceedsRange(u8),
    /// The major number given is 16 or more.
    MajorVersionExceedsRange(u8),
    /// The bytes to read from ran out.
    IoError(ErrorKind),
}

impl VersionError {
    /// What the error says.
    pub open spec fn message(&self) -> Seq<char> {
        match *self {
            VersionError::MajorVersionExceedsRange(major) => "Major version "@ + decimal(
                major as nat,
            ) + " is beyond range [0,16)."@,
            VersionError::MinorVersionExceedsRange(minor) => "Minor version "@ + decimal(
                minor as nat,
            ) + " is beyond range [0,16)."@,
            VersionError::IoError(kind) => kind.message(),
        }
    }

    /// The error as a sentence.
    pub fn to_string(&self) -> (r: String)
        ensures
            r@ == self.message(),
    {
        match *self {
            VersionError::MajorVersionExceedsRange(major) => {
                let mut r = String::from_str("Major version ");
                push_decimal(&mut r, major as u64);
                r.append(" is beyond range [0,16).");
                r
            },
            VersionError::MinorVersionExceedsRange(minor) => {
                let mut r = String::from_str("Minor version ");
                push_decimal(&mut r, minor as u64);
                r.append(" is beyond range [0,16).");
                r
            },
            VersionError::IoError(kind) => kind.to_string(),
        }
    }
}

impl Version {
    /// The packed byte.
    pub closed spec fn byte(self) -> u8 {
        self.0
    }

    /// The version that a packed byte stands for. Every byte is one.
    pub closed spec fn from_byte(byte: u8) -> Version {
        Version(byte)
    }

    /// The major number: the four highest bits of the byte.
    pub open spec fn spec_major(&self) -> u8 {
        self.byte() >> 4
    }

    /// The minor number: the four lowest bits of the byte.
    pub open spec fn spec_minor(&self) -> u8 {
        self.byte() & 0x0F
    }

    /// The one byte that a version occupies on the wire.
    pub open spec fn wire(self) -> Seq<u8> {
        seq![self.byte()]
    }

    /// What `deserialize` makes of the front of `bytes`, with what is left.
    pub open spec fn parse(bytes: Seq<u8>) -> Result<(Version, Seq<u8>), VersionError> {
        match take_u8(bytes) {
            Some((byte, rest)) => Ok((Version::from_byte(byte), rest)),
            None => Err(VersionError::IoError(ErrorKind::UnexpectedEof)),
        }
    }

    /// A version and its packed byte determine each other.
    pub broadcast proof fn lemma_byte_from_byte(byte: u8)
        ensures
            (#[trigger] Version::from_byte(byte)).byte() == byte,
    {
    }

    /// A version and its packed byte determine each other.
    pub broadcast proof fn lemma_from_byte_byte(self)
        ensures
            Version::from_byte(#[trigger] self.byte()) == self,
    {
    }

    /// Both numbers of any version are below 16, and together they give the
    /// packed byte back.
    pub proof fn lemma_fields(self)
        ensures
            self.spec_major() < 16,
            self.spec_minor() < 16,
            self.byte() == (self.spec_major() << 4) | self.spec_minor(),
    {
        let b = self.byte();
        assert(b >> 4 < 16 && b & 0x0F < 16 && b == ((b >> 4) << 4) | (b & 0x0F)) by (bit_vector);
    }

    /// Constructs a [`Version`]; fails when either number needs more than four bits.
    pub fn new(major: u8, minor: u8) -> (r: Result<Version, VersionError>)
        ensures
            major >= 16 ==> r == Err::<Version, _>(VersionError::MajorVersionExceedsRange(major)),
            major < 16 && minor >= 16 ==> r == Err::<Version, _>(
                VersionError::MinorVersionExceedsRange(minor),
            ),
            major < 16 && minor < 16 ==> r == Ok::<_, VersionError>(
                Version::from_byte((major << 4) | minor),
            ),
            r matches Ok(v) ==> v.spec_major() == major && v.spec_minor() == minor,
    {
        if major >= 16 {
            return Err(VersionError::MajorVersionExceedsRange(major));
        }
        if minor >= 16 {
            return Err(VersionError::MinorVersionExceedsRange(minor));
        }
        Ok(Version::new_unchecked(major, minor))
    }

    /// Constructs a [`Version`] from numbers that the caller has shown to be
    /// below 16.
    fn new_unchecked(major: u8, minor: u8) -> (r: Version)
        requires
            major < 16,
            minor < 16,
        ensures
            r == Version::from_byte((major << 4) | minor),
            r.spec_major() == major,
            r.spec_minor() == minor,
    {
        assert(((major << 4) | (minor & 0x0F)) == ((major << 4) | minor) && ((major << 4) | minor)
            >> 4 == major && ((major << 4) | minor) & 0x0F == minor) by (bit_vector)
            requires
                major < 16,
                minor < 16,
        ;
        Version((major << 4) | (minor & 0x0F))
    }

    /// Retrieves the major version number.
    #[verifier::when_used_as_spec(spec_major)]
    pub fn major(&self) -> (r: u8)
        ensures
            r == self.spec_major(),
            r < 16,
    {
        proof {
            self.lemma_fields();
        }
        self.0 >> 4
    }

    /// Retrieves the minor version number.
    #[verifier::when_used_as_spec(spec_minor)]
    pub fn minor(&self) -> (r: u8)
        ensures
            r == self.spec_minor(),
            r < 16,
    {
        proof {
            self.lemma_fields();
        }
        self.0 & 0x0F
    }

    /// The packed byte.
    pub fn to_u8(&self) -> (r: u8)
        ensures
            r == self.byte(),
    {
        self.0
    }

    /// Appends the packed byte to `writer`.
    pub fn serialize(&self, writer: &mut Vec<u8>)
        ensures
            final(writer)@ == old(writer)@ + self.wire(),
    {
        writer.push(self.0);
        assert(writer@ =~= old(writer)@ + self.wire());
    }

    /// Takes a `Version` off the front of `reader`. An empty reader is the
    /// only failure, and leaves the reader as it was.
    pub fn deserialize(reader: &mut &[u8]) -> (r: Result<Version, VersionError>)
        ensures
            match Version::parse(old(reader)@) {
                Ok((v, rest)) => r == Ok::<_, VersionError>(v) && final(reader)@ == rest,
                Err(e) => r == Err::<Version, _>(e) && final(reader)@ == old(reader)@,
            },
    {
        let version = match read_u8(reader) {
            Some(byte) => Version(byte),
            None => {
                return Err(VersionError::IoError(ErrorKind::UnexpectedEof));
            },
        };
        // Four bits hold less than 16, so neither test below can fire; they
        // guard a later, wider layout.
        if version.major() >= 16 {
            return Err(VersionError::MajorVersionExceedsRange(version.major()));
        }
        if version.minor() >= 16 {
            return Err(VersionError::MinorVersionExceedsRange(version.minor()));
        }
        Ok(version)
    }
}

/// A version that was written out reads back as itself, whatever follows it.
pub proof fn lemma_version_round_trip(v: Version, tail: Seq<u8>)
    ensures
        Version::parse(v.wire() + tail) == Ok::<_, VersionError>((v, tail)),
{
    Version::lemma_from_byte_byte(v);
    assert((v.wire() + tail).skip(1) =~= tail);
}

} // verus!
