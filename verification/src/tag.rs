//! Single-character OSC type tags.

use crate::text::{around, spec_escape};
use vstd::prelude::*;
use vstd::std_specs::convert::{FromSpecImpl, TryFromSpecImpl};
use vstd::string::StringExecFns;

verus! {

/// Any possible error in decoding an unknown number of OSC type tags.
#[derive(Clone, Copy, Debug, Eq, Hash, Ord, PartialEq, PartialOrd)]
pub enum TagDecodeErr {
    /// Unrecognized type tag character.
    UnrecognizedTypeTag(u8),
    /// Missing a comma to demarcate the beginning of type tags.
    MissingComma(u8),
    /// Returned a null terminator then the rest of the 4-byte chunk was not null.
    NullThenNonNull,
}

/// The character `i`, which stands for an integer.
pub const INTEGER: u8 = 0x69;

/// The character `f`, which stands for a float.
pub const FLOAT: u8 = 0x66;

/// The character `s`, which stands for a string.
pub const STRING: u8 = 0x73;

/// The character `b`, which stands for a blob.
pub const BLOB: u8 = 0x62;

/// Single-character OSC type tag.
#[derive(Clone, Copy, Debug, Eq, Hash, Ord, PartialEq, PartialOrd)]
pub enum Tag {
    /// 32-bit big-endian signed two's-complement integer.
    Integer,
    /// 32-bit big-endian IEEE 754 floating-point number.
    Float,
    /// Null-terminated (not your responsibility!) byte string.
    String,
    /// Arbitrary known-length collection of bytes.
    Blob,
}

impl Tag {
    /// The character that stands for this tag on the wire: `i`, `f`, `s`
    /// or `b`.
    pub open spec fn spec_byte(self) -> u8 {
        match self {
            Tag::Integer => INTEGER,
            Tag::Float => FLOAT,
            Tag::String => STRING,
            Tag::Blob => BLOB,
        }
    }

    /// The tag that a character of the wire stands for, if it stands for one.
    pub open spec fn spec_from_byte(byte: u8) -> Result<Tag, TagDecodeErr> {
        if byte == INTEGER {
            Ok(Tag::Integer)
        } else if byte == FLOAT {
            Ok(Tag::Float)
        } else if byte == STRING {
            Ok(Tag::String)
        } else if byte == BLOB {
            Ok(Tag::Blob)
        } else {
            Err(TagDecodeErr::UnrecognizedTypeTag(byte))
        }
    }

    /// The character that stands for this tag on the wire.
    pub fn byte(self) -> (byte: u8)
        ensures
            byte == self.spec_byte(),
    {
        match self {
            Tag::Integer => INTEGER,
            Tag::Float => FLOAT,
            Tag::String => STRING,
            Tag::Blob => BLOB,
        }
    }

    /// Every tag is read back from its own character.
    pub proof fn lemma_byte_round_trip(self)
        ensures
            Tag::spec_from_byte(self.spec_byte()) == Ok::<Tag, TagDecodeErr>(self),
    {
    }

    /// A character is read as a tag exactly if it is one of `i`, `f`, `s`
    /// and `b`, and then it is the character of the tag it is read as; any
    /// other character is reported as unrecognized.
    pub proof fn lemma_from_byte(byte: u8)
        ensures
            Tag::spec_from_byte(byte) is Ok <==> byte == INTEGER || byte == FLOAT || byte == STRING
                || byte == BLOB,
            Tag::spec_from_byte(byte) matches Ok(tag) ==> tag.spec_byte() == byte,
            Tag::spec_from_byte(byte) is Err ==> Tag::spec_from_byte(byte) == Err::<
                Tag,
                TagDecodeErr,
            >(TagDecodeErr::UnrecognizedTypeTag(byte)),
    {
    }
}

impl TryFrom<u8> for Tag {
    type Error = TagDecodeErr;

    fn try_from(value: u8) -> (r: Result<Self, Self::Error>) {
        if value == INTEGER {
            Ok(Tag::Integer)
        } else if value == FLOAT {
            Ok(Tag::Float)
        } else if value == STRING {
            Ok(Tag::String)
        } else if value == BLOB {
            Ok(Tag::Blob)
        } else {
            Err(TagDecodeErr::UnrecognizedTypeTag(value))
        }
    }
}

impl TryFromSpecImpl<u8> for Tag {
    open spec fn obeys_try_from_spec() -> bool {
        true
    }

    open spec fn try_from_spec(value: u8) -> Result<Self, Self::Error> {
        Tag::spec_from_byte(value)
    }
}

impl From<Tag> for u8 {
    fn from(tag: Tag) -> (byte: u8) {
        tag.byte()
    }
}

impl FromSpecImpl<Tag> for u8 {
    open spec fn obeys_from_spec() -> bool {
        true
    }

    open spec fn from_spec(tag: Tag) -> u8 {
        tag.spec_byte()
    }
}

impl TagDecodeErr {
    /// The message that describes this error.
    pub open spec fn spec_message(&self) -> Seq<char> {
        match self {
            TagDecodeErr::UnrecognizedTypeTag(c) => {
                "Unrecognized type tag character: '"@
                    + spec_escape(*c) + "'"@
            },
            TagDecodeErr::MissingComma(c) => {
                "Expected a comma to begin type tags but got '"@
                    + spec_escape(*c) + "'"@
            },
            TagDecodeErr::NullThenNonNull => {
                "OSC address returned a null terminator, but then the rest of its 4-byte chunk was non-null."@
            },
        }
    }

    /// The message that describes this error.
    pub fn to_string(&self) -> (text: std::string::String)
        ensures
            text@ == self.spec_message(),
    {
        match self {
            TagDecodeErr::UnrecognizedTypeTag(c) => around(
                "Unrecognized type tag character: '",
                *c,
                "'",
            ),
            TagDecodeErr::MissingComma(c) => around(
                "Expected a comma to begin type tags but got '",
                *c,
                "'",
            ),
            TagDecodeErr::NullThenNonNull => String::from_str(
                "OSC address returned a null terminator, but then the rest of its 4-byte chunk was non-null.",
            ),
        }
    }
}

} // verus!
