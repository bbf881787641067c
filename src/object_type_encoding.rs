//! The encoding byte of a stored value: the high nibble is the type, the low
//! nibble the sub-encoding.

use vstd::prelude::*;
use vstd::utf8::*;
use crate::number::{i64_of_text, parse_i64_bytes};

verus! {

pub const OBJ_TYPE_STRING: u8 = 0;

pub const OBJ_ENCODING_RAW: u8 = 0;

pub const OBJ_ENCODING_INT: u8 = 1;

pub const OBJ_ENCODING_EMBSTR: u8 = 8;

/// Strings shorter than this many bytes are embedded.
pub const EMBSTR_SIZE_LIMIT: usize = 44;

/// The sub-encoding a string gets: `INT` when it reads as a signed 64-bit
/// integer, else `EMBSTR` when it is under 44 bytes, else `RAW`.
pub open spec fn string_encoding_of(bytes: Seq<u8>) -> u8 {
    if i64_of_text(bytes) is Some {
        OBJ_ENCODING_INT
    } else if bytes.len() < EMBSTR_SIZE_LIMIT {
        OBJ_ENCODING_EMBSTR
    } else {
        OBJ_ENCODING_RAW
    }
}

pub fn get_string_encoding(value: &String) -> (r: u8)
    ensures
        r == string_encoding_of(encode_utf8(value@)),
{
    let bytes = value.as_str().as_bytes();
    if parse_i64_bytes(bytes).is_some() {
        return OBJ_ENCODING_INT;
    }
    if bytes.len() < EMBSTR_SIZE_LIMIT {
        return OBJ_ENCODING_EMBSTR;
    }
    OBJ_ENCODING_RAW
}

/// The type nibble of an encoding byte.
pub open spec fn type_of(type_encoding: u8) -> u8 {
    type_encoding & 0xF0
}

pub fn get_type(type_encoding: u8) -> (r: u8)
    ensures
        r == type_of(type_encoding),
{
    type_encoding & 0xF0
}

} // verus!
