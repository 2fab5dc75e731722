//! The element formats of a frame.

use crate::error::{invalid_format_error, Error};
use vstd::prelude::*;

verus! {

/// The formats in which a frame can hold its elements.
#[derive(Clone, Copy, Debug, PartialEq, Eq, Structural)]
pub enum DataFormat {
    /// 32-bit unsigned integers, little-endian.
    U32LE,
    /// 64-bit floating point numbers in `[0, 1)`, little-endian.
    F64LE,
    /// Booleans, one byte each, 0 or 1.
    BoolU8,
}

impl DataFormat {
    /// The byte that names the format in a frame's header.
    pub open spec fn spec_tag(self) -> u8 {
        match self {
            DataFormat::U32LE => 0,
            DataFormat::F64LE => 1,
            DataFormat::BoolU8 => 2,
        }
    }

    /// The format that a tag names, if it names one.
    pub open spec fn of_tag(tag: u8) -> Option<DataFormat> {
        if tag == 0 {
            Some(DataFormat::U32LE)
        } else if tag == 1 {
            Some(DataFormat::F64LE)
        } else if tag == 2 {
            Some(DataFormat::BoolU8)
        } else {
            None
        }
    }

    /// The number of bytes that one element takes.
    pub open spec fn element_size(self) -> nat {
        match self {
            DataFormat::U32LE => 4,
            DataFormat::F64LE => 8,
            DataFormat::BoolU8 => 1,
        }
    }

    /// Decodes a tag. Any byte but 0, 1 and 2 is rejected as an invalid
    /// format, and the error reports the byte.
    pub fn from_u8(value: u8) -> (r: Result<DataFormat, Error>)
        ensures
            r is Ok <==> value <= 2,
            r matches Ok(format) ==> DataFormat::of_tag(value) == Some(format) && format.spec_tag()
                == value,
            r matches Err(e) ==> DataFormat::of_tag(value) is None && e@ == invalid_format_error(
                value,
            ),
    {
        match value {
            0 => Ok(DataFormat::U32LE),
            1 => Ok(DataFormat::F64LE),
            2 => Ok(DataFormat::BoolU8),
            _ => Err(Error::invalid_format(value)),
        }
    }

    /// The byte that names the format in a frame's header.
    #[verifier::when_used_as_spec(spec_tag)]
    pub fn tag(self) -> (tag: u8)
        ensures
            tag == self.spec_tag(),
            DataFormat::of_tag(tag) == Some(self),
    {
        match self {
            DataFormat::U32LE => 0,
            DataFormat::F64LE => 1,
            DataFormat::BoolU8 => 2,
        }
    }

    /// The number of bytes that one element takes.
    pub fn bytes_per_element(self) -> (n: u64)
        ensures
            n == self.element_size(),
    {
        match self {
            DataFormat::U32LE => 4,
            DataFormat::F64LE => 8,
            DataFormat::BoolU8 => 1,
        }
    }
}

/// A tag and its format name each other.
pub proof fn lemma_tag_round_trip(format: DataFormat, tag: u8)
    ensures
        DataFormat::of_tag(format.tag()) == Some(format),
        DataFormat::of_tag(tag) matches Some(f) ==> f.tag() == tag,
        DataFormat::of_tag(tag) is Some <==> tag <= 2,
{
}

} // verus!
