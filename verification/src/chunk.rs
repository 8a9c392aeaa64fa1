//! One length-prefixed, CRC-checked chunk record and its byte codec.

use vstd::prelude::*;

verus! {

use vstd::string::StringExecFns;
use vstd::utf8::{decode_utf8, valid_utf8};
use crate::chunk_type::{type_chars, type_check, type_wf, ChunkType, ChunkTypeError};
use crate::wire::{be_u32, u32_be};

/// Errors from building or parsing a chunk record.
#[derive(Debug, PartialEq, Eq)]
pub enum ChunkError {
    /// The buffer is too short to hold length, type and checksum fields.
    Truncated,
    /// A byte of the type code is not ASCII alphabetic.
    InvalidTypeByte(u8),
    /// The data does not fit a 32-bit length field.
    MessageTooLarge,
    /// The encoded length field does not match the data's length.
    LengthMismatch(u32),
    /// The encoded checksum does not match the data's checksum.
    ChecksumMismatch(u32),
}

/// The CRC-32/ISO-HDLC checksum of a byte sequence, as the `crc` crate
/// computes it.
pub uninterp spec fn crc32_of(bytes: Seq<u8>) -> u32;

/// Relies on `crc::Crc::<u32>::checksum` with the CRC-32/ISO-HDLC
/// algorithm: the checksum is a function of the input bytes alone.
#[verifier::external_body]
fn crc32(bytes: &[u8]) -> (r: u32)
    ensures
        r == crc32_of(bytes@),
{
    crc::Crc::<u32>::new(&crc::CRC_32_ISO_HDLC).checksum(bytes)
}

/// One chunk record: a type code, its data, and the derived length and
/// checksum fields.
#[derive(Debug)]
pub struct Chunk {
    /// Count of data bytes only.
    pub length: u32,
    pub chunk_type: ChunkType,
    pub data: Vec<u8>,
    /// Checksum over type code and data, not the length field.
    pub crc: u32,
}

/// A well-formed record: the type code is valid, the length field counts
/// the data bytes, and the checksum covers type code plus data.  Both
/// constructors establish this.
pub open spec fn chunk_wf(c: Chunk) -> bool {
    &&& type_wf(c.chunk_type)
    &&& c.length == c.data@.len()
    &&& c.crc == crc32_of(c.chunk_type.bytes@ + c.data@)
}

/// The exact byte encoding of a record: big-endian length, type code,
/// data, big-endian checksum.
pub open spec fn spec_chunk_bytes(c: Chunk) -> Seq<u8> {
    u32_be(c.length) + c.chunk_type.bytes@ + c.data@ + u32_be(c.crc)
}

/// What parsing a buffer as one chunk yields: the type and data bytes on
/// success, or the first error the buffer exhibits, in the order the
/// parser checks them.
pub open spec fn chunk_parse_spec(b: Seq<u8>) -> Result<(Seq<u8>, Seq<u8>), ChunkError> {
    if b.len() < 8 {
        Err(ChunkError::Truncated)
    } else {
        let t = b.subrange(4, 8);
        let d = b.subrange(8, b.len() - 4);
        if type_check(t) is Some {
            Err(ChunkError::InvalidTypeByte(type_check(t)->Some_0))
        } else if b.len() < 12 {
            Err(ChunkError::Truncated)
        } else if d.len() > u32::MAX {
            Err(ChunkError::MessageTooLarge)
        } else if be_u32(b.subrange(0, 4)) != d.len() {
            Err(ChunkError::LengthMismatch(be_u32(b.subrange(0, 4))))
        } else if be_u32(b.subrange(b.len() - 4, b.len() as int)) != crc32_of(t + d) {
            Err(ChunkError::ChecksumMismatch(be_u32(b.subrange(b.len() - 4, b.len() as int))))
        } else {
            Ok((t, d))
        }
    }
}

impl Chunk {
    /// Builds a record from a type code and data, deriving the length and
    /// checksum fields; data longer than the 32-bit length field can count
    /// is rejected.
    pub fn new(chunk_type: ChunkType, data: Vec<u8>) -> (r: Result<Chunk, ChunkError>)
        ensures
            match r {
                Ok(c) => {
                    &&& data@.len() <= u32::MAX
                    &&& c.chunk_type == chunk_type
                    &&& c.data@ == data@
                    &&& c.length == data@.len()
                    &&& c.crc == crc32_of(chunk_type.bytes@ + data@)
                    &&& type_wf(chunk_type) ==> chunk_wf(c)
                },
                Err(e) => data@.len() > u32::MAX && e == ChunkError::MessageTooLarge,
            },
    {
        if data.len() > u32::MAX as usize {
            return Err(ChunkError::MessageTooLarge);
        }
        let length = data.len() as u32;
        let mut content: Vec<u8> = Vec::new();
        content.push(chunk_type.bytes[0]);
        content.push(chunk_type.bytes[1]);
        content.push(chunk_type.bytes[2]);
        content.push(chunk_type.bytes[3]);
        content.extend_from_slice(data.as_slice());
        assert(content@ =~= chunk_type.bytes@ + data@);
        let crc = crc32(content.as_slice());
        Ok(Chunk { length, chunk_type, data, crc })
    }

    /// Parses a buffer as one record: big-endian length, type code, data,
    /// big-endian checksum; the length and checksum fields are validated
    /// against the data, never trusted.
    pub fn from_bytes(b: &[u8]) -> (r: Result<Chunk, ChunkError>)
        ensures
            match r {
                Ok(c) => {
                    &&& chunk_parse_spec(b@) matches Ok(td)
                    &&& c.chunk_type.bytes@ == td.0
                    &&& c.data@ == td.1
                    &&& c.length == td.1.len()
                    &&& c.crc == crc32_of(td.0 + td.1)
                    &&& chunk_wf(c)
                },
                Err(e) => chunk_parse_spec(b@) matches Err(pe) && e == pe,
            },
    {
        if b.len() < 8 {
            return Err(ChunkError::Truncated);
        }
        let code: [u8; 4] = [b[4], b[5], b[6], b[7]];
        assert(code@ =~= b@.subrange(4, 8));
        let chunk_type = match ChunkType::from_bytes(code) {
            Ok(t) => t,
            Err(ChunkTypeError::InvalidTypeByte(x)) => {
                return Err(ChunkError::InvalidTypeByte(x));
            },
            Err(ChunkTypeError::InvalidLength(_)) => {
                assert(false);
                return Err(ChunkError::Truncated);
            },
        };
        if b.len() < 12 {
            return Err(ChunkError::Truncated);
        }
        let declared = crate::wire::be_to_u32(b[0], b[1], b[2], b[3]);
        assert(seq![b@[0], b@[1], b@[2], b@[3]] =~= b@.subrange(0, 4));
        let data_len = b.len() - 12;
        if data_len > u32::MAX as usize {
            return Err(ChunkError::MessageTooLarge);
        }
        let mut data: Vec<u8> = Vec::new();
        let mut i: usize = 8;
        while i < b.len() - 4
            invariant
                b@.len() >= 12,
                8 <= i <= b@.len() - 4,
                data@ == b@.subrange(8, i as int),
            decreases b@.len() - 4 - i,
        {
            data.push(b[i]);
            assert(data@ =~= b@.subrange(8, i + 1));
            i += 1;
        }
        if declared as usize != data_len {
            return Err(ChunkError::LengthMismatch(declared));
        }
        let mut content: Vec<u8> = Vec::new();
        content.push(code[0]);
        content.push(code[1]);
        content.push(code[2]);
        content.push(code[3]);
        content.extend_from_slice(data.as_slice());
        assert(content@ =~= b@.subrange(4, 8) + b@.subrange(8, b@.len() - 4));
        let actual = crc32(content.as_slice());
        let stored = crate::wire::be_to_u32(b[b.len() - 4], b[b.len() - 3], b[b.len() - 2], b[b.len()
            - 1]);
        assert(seq![b@[b@.len() - 4], b@[b@.len() - 3], b@[b@.len() - 2], b@[b@.len() - 1]]
            =~= b@.subrange(b@.len() - 4, b@.len() as int));
        if stored != actual {
            return Err(ChunkError::ChecksumMismatch(stored));
        }
        Ok(Chunk { length: declared, chunk_type, data, crc: actual })
    }

    /// The count of data bytes.
    pub fn length(&self) -> (r: u32)
        ensures
            r == self.length,
    {
        self.length
    }

    /// The record's type code.
    pub fn chunk_type(&self) -> (r: &ChunkType)
        ensures
            *r == self.chunk_type,
    {
        &self.chunk_type
    }

    /// The record's data bytes.
    pub fn data(&self) -> (r: &[u8])
        ensures
            r@ == self.data@,
    {
        self.data.as_slice()
    }

    /// The record's checksum field.
    pub fn crc(&self) -> (r: u32)
        ensures
            r == self.crc,
    {
        self.crc
    }

    /// The data read as UTF-8 text, when it is valid UTF-8.
    pub fn data_as_string(&self) -> (r: Option<String>)
        ensures
            r is Some <==> valid_utf8(self.data@),
            r matches Some(s) ==> s@ == decode_utf8(self.data@),
    {
        let mut bytes: Vec<u8> = Vec::new();
        bytes.extend_from_slice(self.data.as_slice());
        assert(bytes@ =~= self.data@);
        crate::text::utf8_to_string(bytes)
    }

    /// The record's exact byte encoding.
    pub fn as_bytes(&self) -> (r: Vec<u8>)
        ensures
            r@ == spec_chunk_bytes(*self),
    {
        let mut out: Vec<u8> = Vec::new();
        let len_be = crate::wire::u32_to_be(self.length);
        out.push(len_be[0]);
        out.push(len_be[1]);
        out.push(len_be[2]);
        out.push(len_be[3]);
        out.push(self.chunk_type.bytes[0]);
        out.push(self.chunk_type.bytes[1]);
        out.push(self.chunk_type.bytes[2]);
        out.push(self.chunk_type.bytes[3]);
        out.extend_from_slice(self.data.as_slice());
        let crc_be = crate::wire::u32_to_be(self.crc);
        out.push(crc_be[0]);
        out.push(crc_be[1]);
        out.push(crc_be[2]);
        out.push(crc_be[3]);
        assert(out@ =~= spec_chunk_bytes(*self));
        out
    }

    /// The record listed as text: the type code, a tab, then the data as
    /// UTF-8 text or a placeholder when the data is not valid UTF-8.
    pub fn render_text(&self) -> (r: String)
        ensures
            r@ == spec_render(*self),
    {
        let mut s = self.chunk_type.to_text();
        crate::text::push_char(&mut s, '\t');
        match self.data_as_string() {
            Some(d) => {
                s.append(d.as_str());
            },
            None => {
                s.append("[data]");
            },
        }
        assert(s@ =~= spec_render(*self));
        s
    }
}

/// The text listing of a record: type code, a tab, and the data decoded
/// as UTF-8 or a placeholder.
pub open spec fn spec_render(c: Chunk) -> Seq<char> {
    type_chars(c.chunk_type) + seq!['\t'] + if valid_utf8(c.data@) {
        decode_utf8(c.data@)
    } else {
        "[data]"@
    }
}

/// Round trip: parsing a well-formed record's serialized bytes succeeds
/// and yields the record's own type code and data.
pub proof fn lemma_chunk_round_trip(c: Chunk)
    requires
        chunk_wf(c),
    ensures
        chunk_parse_spec(spec_chunk_bytes(c)) matches Ok(td) && td.0 == c.chunk_type.bytes@
            && td.1 == c.data@,
{
    let b = spec_chunk_bytes(c);
    assert(b.len() == 12 + c.data@.len());
    assert(b.subrange(0, 4) =~= u32_be(c.length));
    assert(b.subrange(4, 8) =~= c.chunk_type.bytes@);
    assert(b.subrange(8, b.len() - 4) =~= c.data@);
    assert(b.subrange(b.len() - 4, b.len() as int) =~= u32_be(c.crc));
    crate::wire::lemma_u32_be_round_trip(c.length);
    crate::wire::lemma_u32_be_round_trip(c.crc);
}

/// Corruption is caught: change one byte of a well-formed record's
/// serialized type or data region, leaving the type region alphabetic;
/// if the change alters the checksum of the covered content, parsing the
/// mutated buffer fails with `ChecksumMismatch`, reporting the stored
/// checksum.
pub proof fn lemma_corruption_detected(c: Chunk, b: Seq<u8>, i: int)
    requires
        chunk_wf(c),
        b.len() == spec_chunk_bytes(c).len(),
        4 <= i < b.len() - 4,
        b[i] != spec_chunk_bytes(c)[i],
        forall|j: int| 0 <= j < b.len() && j != i ==> b[j] == spec_chunk_bytes(c)[j],
        type_check(b.subrange(4, 8)) is None,
        crc32_of(b.subrange(4, 8) + b.subrange(8, b.len() - 4)) != crc32_of(
            c.chunk_type.bytes@ + c.data@,
        ),
    ensures
        chunk_parse_spec(b) matches Err(e) && e == ChunkError::ChecksumMismatch(c.crc),
{
    let o = spec_chunk_bytes(c);
    assert(o.len() == 12 + c.data@.len());
    assert(b.subrange(0, 4) =~= u32_be(c.length));
    assert(b.subrange(b.len() - 4, b.len() as int) =~= u32_be(c.crc));
    crate::wire::lemma_u32_be_round_trip(c.length);
    crate::wire::lemma_u32_be_round_trip(c.crc);
    assert(b.subrange(8, b.len() - 4).len() == c.data@.len());
}

} // verus!
