//! Four-byte chunk type codes and their bit-encoded properties.

use vstd::prelude::*;

verus! {

use vstd::string::StringSliceAdditionalSpecFns;

/// Errors from constructing a chunk type code.
#[derive(Debug, PartialEq, Eq)]
pub enum ChunkTypeError {
    /// A byte of the code is not an ASCII alphabetic character.
    InvalidTypeByte(u8),
    /// The textual form of the code is not exactly four bytes long.
    InvalidLength(usize),
}

/// Whether a byte is an ASCII alphabetic character.
pub open spec fn is_alpha(b: u8) -> bool {
    (65 <= b && b <= 90) || (97 <= b && b <= 122)
}

/// The first byte of a four-byte code that is not ASCII alphabetic, if any.
pub open spec fn type_check(s: Seq<u8>) -> Option<u8> {
    if !is_alpha(s[0]) {
        Some(s[0])
    } else if !is_alpha(s[1]) {
        Some(s[1])
    } else if !is_alpha(s[2]) {
        Some(s[2])
    } else if !is_alpha(s[3]) {
        Some(s[3])
    } else {
        None
    }
}

/// A four-byte PNG chunk type code.
///
/// Bit 5 of each byte carries one property of the chunk, read by the
/// `is_*` methods below.
#[derive(Debug, Clone, Copy, PartialEq, Eq)]
pub struct ChunkType {
    pub bytes: [u8; 4],
}

/// A well-formed type code has only ASCII alphabetic bytes; both
/// constructors establish this.
pub open spec fn type_wf(t: ChunkType) -> bool {
    type_check(t.bytes@) is None
}

/// The code's four bytes read as ASCII text.
pub open spec fn type_chars(t: ChunkType) -> Seq<char> {
    seq![
        t.bytes@[0] as char,
        t.bytes@[1] as char,
        t.bytes@[2] as char,
        t.bytes@[3] as char,
    ]
}

pub open spec fn spec_is_critical(t: ChunkType) -> bool {
    t.bytes@[0] & 0x20 == 0
}

pub open spec fn spec_is_public(t: ChunkType) -> bool {
    t.bytes@[1] & 0x20 == 0
}

pub open spec fn spec_is_reserved_bit_valid(t: ChunkType) -> bool {
    t.bytes@[2] & 0x20 == 0
}

pub open spec fn spec_is_safe_to_copy(t: ChunkType) -> bool {
    t.bytes@[3] & 0x20 != 0
}

fn is_ascii_alpha(b: u8) -> (r: bool)
    ensures
        r == is_alpha(b),
{
    (65 <= b && b <= 90) || (97 <= b && b <= 122)
}

impl ChunkType {
    /// Builds a type code from four raw bytes; every byte must be ASCII
    /// alphabetic, and the first offending byte is reported otherwise.
    pub fn from_bytes(bytes: [u8; 4]) -> (r: Result<ChunkType, ChunkTypeError>)
        ensures
            match r {
                Ok(t) => type_check(bytes@) is None && t.bytes@ == bytes@ && type_wf(t),
                Err(e) => {
                    &&& type_check(bytes@) is Some
                    &&& e == ChunkTypeError::InvalidTypeByte(type_check(bytes@)->Some_0)
                },
            },
    {
        if !is_ascii_alpha(bytes[0]) {
            return Err(ChunkTypeError::InvalidTypeByte(bytes[0]));
        }
        if !is_ascii_alpha(bytes[1]) {
            return Err(ChunkTypeError::InvalidTypeByte(bytes[1]));
        }
        if !is_ascii_alpha(bytes[2]) {
            return Err(ChunkTypeError::InvalidTypeByte(bytes[2]));
        }
        if !is_ascii_alpha(bytes[3]) {
            return Err(ChunkTypeError::InvalidTypeByte(bytes[3]));
        }
        Ok(ChunkType { bytes })
    }

    /// Builds a type code from text; the text must be exactly four bytes
    /// long, and the bytes are validated as in `from_bytes`.
    pub fn from_str(s: &str) -> (r: Result<ChunkType, ChunkTypeError>)
        ensures
            match r {
                Ok(t) => {
                    &&& s.spec_bytes().len() == 4
                    &&& type_check(s.spec_bytes()) is None
                    &&& t.bytes@ == s.spec_bytes()
                    &&& type_wf(t)
                },
                Err(ChunkTypeError::InvalidLength(n)) => {
                    &&& s.spec_bytes().len() != 4
                    &&& n == s.spec_bytes().len()
                },
                Err(ChunkTypeError::InvalidTypeByte(b)) => {
                    &&& s.spec_bytes().len() == 4
                    &&& type_check(s.spec_bytes()) == Some(b)
                },
            },
    {
        let bytes = s.as_bytes();
        if bytes.len() != 4 {
            return Err(ChunkTypeError::InvalidLength(bytes.len()));
        }
        let code: [u8; 4] = [bytes[0], bytes[1], bytes[2], bytes[3]];
        assert(code@ =~= s.spec_bytes());
        Self::from_bytes(code)
    }

    /// The four raw bytes of the code.
    pub fn bytes(&self) -> (r: [u8; 4])
        ensures
            r == self.bytes,
    {
        self.bytes
    }

    /// A standards-conformant code has its reserved bit clear.
    pub fn is_valid(&self) -> (r: bool)
        ensures
            r == spec_is_reserved_bit_valid(*self),
    {
        self.is_reserved_bit_valid()
    }

    /// Bit 5 of the first byte: clear for a critical chunk, set for an
    /// ancillary one.
    pub fn is_critical(&self) -> (r: bool)
        ensures
            r == spec_is_critical(*self),
    {
        self.bytes[0] & 0x20 == 0
    }

    /// Bit 5 of the second byte: clear for a public chunk, set for a
    /// private one.
    pub fn is_public(&self) -> (r: bool)
        ensures
            r == spec_is_public(*self),
    {
        self.bytes[1] & 0x20 == 0
    }

    /// Bit 5 of the third byte is reserved and must be clear.
    pub fn is_reserved_bit_valid(&self) -> (r: bool)
        ensures
            r == spec_is_reserved_bit_valid(*self),
    {
        self.bytes[2] & 0x20 == 0
    }

    /// Bit 5 of the fourth byte: set when the chunk is safe to copy.
    pub fn is_safe_to_copy(&self) -> (r: bool)
        ensures
            r == spec_is_safe_to_copy(*self),
    {
        self.bytes[3] & 0x20 != 0
    }

    /// The code rendered as text, one character per byte.
    pub fn to_text(&self) -> (r: String)
        ensures
            r@ == type_chars(*self),
    {
        let mut s = String::new();
        crate::text::push_char(&mut s, self.bytes[0] as char);
        crate::text::push_char(&mut s, self.bytes[1] as char);
        crate::text::push_char(&mut s, self.bytes[2] as char);
        crate::text::push_char(&mut s, self.bytes[3] as char);
        assert(s@ =~= type_chars(*self));
        s
    }
}

} // verus!
