//! The length-prefixed, checksum-suffixed chunk record.
//!
//! On the wire a chunk is: 4 bytes big-endian payload length, 4 bytes type
//! code, the payload, and 4 bytes big-endian CRC-32/ISO-HDLC over the type
//! code and payload.  The length field is authoritative: parsing uses it
//! to locate the payload boundary and never re-derives it from the slice
//! size.

use crate::byte_order::{
    lemma_u32_from_to_be_bytes,
    lemma_u32_to_from_be_bytes,
    spec_u32_from_be_bytes,
    spec_u32_to_be_bytes,
    u32_from_be_bytes_at,
    u32_to_be_bytes,
};
use crate::chunk_type::{is_ascii_letter, ChunkType};
use crate::crc32::{crc32_checksum, crc32_of};
use crate::error::PngError;
use vstd::prelude::*;

verus! {

/// The mathematical content of a chunk.
pub struct ChunkView {
    pub length: u32,
    pub type_code: ChunkType,
    pub data: Seq<u8>,
    pub crc: u32,
}

impl ChunkView {
    /// A chunk is well formed when its type code is four ASCII letters,
    /// its length field equals the payload length, and its checksum is
    /// the CRC-32 of the type code bytes followed by the payload.
    pub open spec fn wf(self) -> bool {
        &&& self.type_code.wf()
        &&& self.length == self.data.len()
        &&& self.crc == crc32_of(self.type_code.spec_bytes() + self.data)
    }

    /// The binary encoding of the chunk.
    pub open spec fn spec_bytes(self) -> Seq<u8> {
        spec_u32_to_be_bytes(self.length) + self.type_code.spec_bytes() + self.data
            + spec_u32_to_be_bytes(self.crc)
    }
}

/// What parsing a byte slice as one whole chunk yields.
///
/// The slice must hold exactly one chunk: the 12 bytes of framing plus as
/// many payload bytes as the length field announces, no more and no less.
pub open spec fn spec_parse_chunk(bytes: Seq<u8>) -> Result<ChunkView, PngError> {
    if bytes.len() < 12 {
        Err(PngError::MalformedChunk)
    } else {
        let length = spec_u32_from_be_bytes(bytes.subrange(0, 4));
        if bytes.len() != 12 + length {
            Err(PngError::MalformedChunk)
        } else {
            let type_bytes = bytes.subrange(4, 8);
            let data = bytes.subrange(8, 8 + length as int);
            let stored = spec_u32_from_be_bytes(
                bytes.subrange(8 + length as int, 12 + length as int),
            );
            if stored != crc32_of(type_bytes + data) {
                Err(PngError::ChecksumMismatch)
            } else if !(is_ascii_letter(bytes[4]) && is_ascii_letter(bytes[5])
                && is_ascii_letter(bytes[6]) && is_ascii_letter(bytes[7])) {
                Err(PngError::InvalidTypeCode)
            } else {
                Ok(
                    ChunkView {
                        length,
                        type_code: ChunkType {
                            ancillary_bit: bytes[4],
                            private_bit: bytes[5],
                            reserved_bit: bytes[6],
                            safe_to_copy_bit: bytes[7],
                        },
                        data,
                        crc: stored,
                    },
                )
            }
        }
    }
}

/// A successfully parsed chunk is well formed, and the slice length
/// matches its length field.
pub proof fn lemma_parse_chunk_wf(bytes: Seq<u8>)
    requires
        spec_parse_chunk(bytes) is Ok,
    ensures
        spec_parse_chunk(bytes).unwrap().wf(),
        bytes.len() == 12 + spec_parse_chunk(bytes).unwrap().length,
{
    let m = spec_parse_chunk(bytes).unwrap();
    assert(m.type_code.spec_bytes() =~= bytes.subrange(4, 8));
}

/// Serializing a well-formed chunk and parsing the bytes back yields the
/// same chunk: type code, payload, length and checksum all survive the
/// round trip.
pub proof fn lemma_chunk_round_trip(m: ChunkView)
    requires
        m.wf(),
    ensures
        spec_parse_chunk(m.spec_bytes()) == Ok::<ChunkView, PngError>(m),
{
    let b = m.spec_bytes();
    lemma_u32_from_to_be_bytes(m.length);
    lemma_u32_from_to_be_bytes(m.crc);
    assert(b.len() == 12 + m.data.len());
    assert(b.subrange(0, 4) =~= spec_u32_to_be_bytes(m.length));
    assert(b.subrange(4, 8) =~= m.type_code.spec_bytes());
    let length = spec_u32_from_be_bytes(b.subrange(0, 4));
    assert(length == m.length);
    assert(b.subrange(8, 8 + length as int) =~= m.data);
    assert(b.subrange(8 + length as int, 12 + length as int) =~= spec_u32_to_be_bytes(m.crc));
    assert(b[4] == m.type_code.ancillary_bit && b[5] == m.type_code.private_bit && b[6]
        == m.type_code.reserved_bit && b[7] == m.type_code.safe_to_copy_bit);
    assert(b.subrange(4, 8) + b.subrange(8, 8 + length as int) =~= m.type_code.spec_bytes()
        + m.data);
    let parsed = spec_parse_chunk(b).unwrap();
    assert(parsed =~= m) by {
        assert(parsed.data =~= m.data);
    }
}

/// Parsing fixes the bytes: serializing a chunk that parsing accepted
/// yields exactly the bytes that were parsed.
pub proof fn lemma_chunk_bytes_round_trip(bytes: Seq<u8>)
    requires
        spec_parse_chunk(bytes) is Ok,
    ensures
        spec_parse_chunk(bytes).unwrap().spec_bytes() == bytes,
{
    let m = spec_parse_chunk(bytes).unwrap();
    lemma_u32_to_from_be_bytes(bytes.subrange(0, 4));
    lemma_u32_to_from_be_bytes(bytes.subrange(8 + m.length as int, 12 + m.length as int));
    assert(m.type_code.spec_bytes() =~= bytes.subrange(4, 8));
    assert(m.spec_bytes() =~= bytes);
}

/// A chunk record: a type code, an opaque payload, and the payload's
/// length and CRC-32 checksum as stored on the wire.
///
/// The two constructors [`Chunk::new`] and [`Chunk::try_from`] only ever
/// build well-formed chunks (see [`ChunkView::wf`]); the fields are never
/// mutated afterwards, so an inconsistent length or checksum cannot arise.
#[derive(Debug)]
pub struct Chunk {
    pub length: u32,
    pub chunk_type: ChunkType,
    pub data: Vec<u8>,
    pub crc: u32,
}

impl View for Chunk {
    type V = ChunkView;

    open spec fn view(&self) -> ChunkView {
        ChunkView {
            length: self.length,
            type_code: self.chunk_type,
            data: self.data@,
            crc: self.crc,
        }
    }
}

impl Chunk {
    /// Builds a chunk from a type code and a payload, computing the
    /// length and the CRC-32 checksum; never fails.
    pub fn new(chunk_type: ChunkType, data: Vec<u8>) -> (r: Chunk)
        requires
            chunk_type.wf(),
            data@.len() <= u32::MAX,
        ensures
            r@.wf(),
            r@.type_code == chunk_type,
            r@.data == data@,
            r@.length == data@.len(),
            r@.crc == crc32_of(chunk_type.spec_bytes() + data@),
    {
        let length = data.len() as u32;
        let crc = checksum_over(&chunk_type, data.as_slice());
        Chunk { length, chunk_type, data, crc }
    }

    /// The payload length as stored in the length field.
    pub fn length(&self) -> (r: u32)
        ensures
            r == self@.length,
    {
        self.length
    }

    /// The chunk's type code.
    pub fn chunk_type(&self) -> (r: &ChunkType)
        ensures
            *r == self@.type_code,
    {
        &self.chunk_type
    }

    /// The opaque payload bytes.
    pub fn data(&self) -> (r: &[u8])
        ensures
            r@ == self@.data,
    {
        self.data.as_slice()
    }

    /// The stored CRC-32 checksum.
    pub fn crc(&self) -> (r: u32)
        ensures
            r == self@.crc,
    {
        self.crc
    }

    /// The payload decoded as UTF-8 text; fails when the payload is not
    /// valid UTF-8.
    pub fn data_as_string(&self) -> (r: Result<String, PngError>)
        ensures
            r is Ok <==> vstd::utf8::valid_utf8(self@.data),
            r matches Ok(s) ==> s@ == vstd::utf8::decode_utf8(self@.data),
            r matches Err(e) ==> e == PngError::InvalidEncoding,
    {
        let copy = vstd::slice::slice_to_vec(self.data.as_slice());
        match crate::text::vec_into_string(copy) {
            Some(s) => Ok(s),
            None => Err(PngError::InvalidEncoding),
        }
    }

    /// The chunk's binary encoding: big-endian length, type code bytes,
    /// payload, big-endian checksum.
    pub fn as_bytes(&self) -> (r: Vec<u8>)
        ensures
            r@ == self@.spec_bytes(),
    {
        let mut out: Vec<u8> = Vec::new();
        let length_bytes = u32_to_be_bytes(self.length);
        let type_bytes = self.chunk_type.bytes();
        let crc_bytes = u32_to_be_bytes(self.crc);
        out.push(length_bytes[0]);
        out.push(length_bytes[1]);
        out.push(length_bytes[2]);
        out.push(length_bytes[3]);
        out.push(type_bytes[0]);
        out.push(type_bytes[1]);
        out.push(type_bytes[2]);
        out.push(type_bytes[3]);
        let mut payload = vstd::slice::slice_to_vec(self.data.as_slice());
        out.append(&mut payload);
        out.push(crc_bytes[0]);
        out.push(crc_bytes[1]);
        out.push(crc_bytes[2]);
        out.push(crc_bytes[3]);
        proof {
            assert(out@ =~= self@.spec_bytes());
        }
        out
    }

    /// Parses a byte slice holding exactly one chunk.
    ///
    /// Fails with `MalformedChunk` when the slice is shorter than the 12
    /// framing bytes or its length disagrees with the length field, with
    /// `InvalidTypeCode` when the type bytes are not ASCII letters, and
    /// with `ChecksumMismatch` when the stored CRC-32 differs from the
    /// one recomputed over the type code and payload.
    pub fn try_from(bytes: &[u8]) -> (r: Result<Chunk, PngError>)
        ensures
            match spec_parse_chunk(bytes@) {
                Ok(m) => r matches Ok(c) && c@ == m,
                Err(e) => r matches Err(e2) && e2 == e,
            },
            r matches Ok(c) ==> c@.wf(),
    {
        proof {
            if spec_parse_chunk(bytes@) is Ok {
                lemma_parse_chunk_wf(bytes@);
            }
        }
        let n: usize = bytes.len();
        if n < 12 {
            return Err(PngError::MalformedChunk);
        }
        let length = u32_from_be_bytes_at(bytes, 0);
        if (n as u64) - 12 != length as u64 {
            return Err(PngError::MalformedChunk);
        }
        let t0 = *vstd::slice::slice_index_get(bytes, 4);
        let t1 = *vstd::slice::slice_index_get(bytes, 5);
        let t2 = *vstd::slice::slice_index_get(bytes, 6);
        let t3 = *vstd::slice::slice_index_get(bytes, 7);
        let payload_end = n - 4;
        let data_slice = vstd::slice::slice_subrange(bytes, 8, payload_end);
        let computed = checksum_bytes_over(t0, t1, t2, t3, data_slice);
        let stored = u32_from_be_bytes_at(bytes, payload_end);
        proof {
            assert(seq![t0, t1, t2, t3] =~= bytes@.subrange(4, 8));
            assert(bytes@.subrange(8 + length as int, 12 + length as int) =~= bytes@.subrange(
                payload_end as int,
                payload_end as int + 4,
            ));
        }
        if stored != computed {
            return Err(PngError::ChecksumMismatch);
        }
        let chunk_type = match ChunkType::try_from([t0, t1, t2, t3]) {
            Ok(t) => t,
            Err(e) => {
                return Err(e);
            },
        };
        proof {
            assert(chunk_type.spec_bytes() =~= bytes@.subrange(4, 8));
        }
        let data = vstd::slice::slice_to_vec(data_slice);
        let c = Chunk { length, chunk_type, data, crc: stored };
        proof {
            let m = spec_parse_chunk(bytes@).unwrap();
            assert(c@ =~= m) by {
                assert(c@.data =~= m.data);
            }
        }
        Ok(c)
    }
}

/// The CRC-32 checksum over a type code's four bytes followed by a
/// payload, as stored at the end of every chunk.
fn checksum_over(chunk_type: &ChunkType, data: &[u8]) -> (r: u32)
    ensures
        r == crc32_of(chunk_type.spec_bytes() + data@),
{
    let type_bytes = chunk_type.bytes();
    let r = checksum_bytes_over(type_bytes[0], type_bytes[1], type_bytes[2], type_bytes[3], data);
    proof {
        assert(seq![type_bytes[0], type_bytes[1], type_bytes[2], type_bytes[3]]
            =~= chunk_type.spec_bytes());
    }
    r
}

/// The CRC-32 checksum over four raw type bytes followed by a payload.
fn checksum_bytes_over(t0: u8, t1: u8, t2: u8, t3: u8, data: &[u8]) -> (r: u32)
    ensures
        r == crc32_of(seq![t0, t1, t2, t3] + data@),
{
    let mut buf: Vec<u8> = Vec::new();
    buf.push(t0);
    buf.push(t1);
    buf.push(t2);
    buf.push(t3);
    let mut payload = vstd::slice::slice_to_vec(data);
    buf.append(&mut payload);
    proof {
        assert(buf@ =~= seq![t0, t1, t2, t3] + data@);
    }
    crc32_checksum(buf.as_slice())
}

} // verus!
