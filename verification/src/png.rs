//! The container: a fixed 8-byte signature followed by an ordered
//! sequence of chunks.
//!
//! Chunks are parsed sequentially from the bytes after the signature
//! until they are exhausted.  Each chunk's own length field determines
//! how many bytes it consumes before the next chunk starts; a corrupt
//! length therefore desynchronizes parsing of all subsequent chunks.
//! That fragility is part of the wire contract and is deliberately not
//! repaired here: parsing fails fast instead of resynchronizing.

use crate::byte_order::{lemma_u32_from_to_be_bytes, spec_u32_from_be_bytes, u32_from_be_bytes_at};
use crate::chunk::{
    lemma_chunk_bytes_round_trip,
    lemma_chunk_round_trip,
    lemma_parse_chunk_wf,
    spec_parse_chunk,
    Chunk,
    ChunkView,
};
use crate::chunk_type::ChunkType;
use crate::error::PngError;
use vstd::prelude::*;

verus! {

/// The fixed 8-byte signature that opens every container stream.
pub open spec fn spec_signature() -> Seq<u8> {
    seq![137u8, 80u8, 78u8, 71u8, 13u8, 10u8, 26u8, 10u8]
}

/// The fixed 8-byte signature that opens every container stream.
pub fn signature() -> (r: [u8; 8])
    ensures
        r@ == spec_signature(),
{
    let r = [137u8, 80u8, 78u8, 71u8, 13u8, 10u8, 26u8, 10u8];
    proof {
        assert(r@ =~= spec_signature());
    }
    r
}

/// The views of a sequence of chunks.
pub open spec fn views_of(chunks: Seq<Chunk>) -> Seq<ChunkView> {
    chunks.map_values(|c: Chunk| c@)
}

/// The concatenated binary encodings of the given chunks, in order.
pub open spec fn spec_concat_chunks(chunks: Seq<ChunkView>) -> Seq<u8>
    decreases chunks.len(),
{
    if chunks.len() == 0 {
        Seq::empty()
    } else {
        chunks[0].spec_bytes() + spec_concat_chunks(chunks.drop_first())
    }
}

/// The full binary encoding of a container: signature, then each chunk's
/// encoding concatenated in list order, with no gaps.
pub open spec fn spec_png_bytes(chunks: Seq<ChunkView>) -> Seq<u8> {
    spec_signature() + spec_concat_chunks(chunks)
}

/// What parsing the bytes after the signature yields: chunks parsed
/// sequentially until the bytes are exhausted, each consuming the 12
/// framing bytes plus as many payload bytes as its length field says.
pub open spec fn spec_parse_chunks(bytes: Seq<u8>) -> Result<Seq<ChunkView>, PngError>
    decreases bytes.len(),
{
    if bytes.len() == 0 {
        Ok(Seq::empty())
    } else if bytes.len() < 12 {
        Err(PngError::MalformedChunk)
    } else {
        let length = spec_u32_from_be_bytes(bytes.subrange(0, 4));
        if bytes.len() < 12 + length {
            Err(PngError::MalformedChunk)
        } else {
            match spec_parse_chunk(bytes.subrange(0, 12 + length as int)) {
                Err(e) => Err(e),
                Ok(m) => match spec_parse_chunks(bytes.skip(12 + length as int)) {
                    Err(e) => Err(e),
                    Ok(rest) => Ok(seq![m] + rest),
                },
            }
        }
    }
}

/// What parsing a whole byte stream yields: the signature must open the
/// stream, and the rest is parsed as chunks.
pub open spec fn spec_parse_png(bytes: Seq<u8>) -> Result<Seq<ChunkView>, PngError> {
    if bytes.len() < 8 || bytes.subrange(0, 8) != spec_signature() {
        Err(PngError::BadSignature)
    } else {
        spec_parse_chunks(bytes.skip(8))
    }
}

/// The index of the first chunk with the given type code, if any.
pub open spec fn spec_first_match(chunks: Seq<ChunkView>, t: ChunkType) -> Option<int>
    decreases chunks.len(),
{
    if chunks.len() == 0 {
        None
    } else if chunks[0].type_code == t {
        Some(0int)
    } else {
        match spec_first_match(chunks.drop_first(), t) {
            None => None,
            Some(i) => Some(i + 1),
        }
    }
}

/// What [`spec_first_match`] finds: `None` means no chunk has the type
/// code; `Some(i)` names a chunk with it, before which none has it.
pub proof fn lemma_first_match_properties(chunks: Seq<ChunkView>, t: ChunkType)
    ensures
        match spec_first_match(chunks, t) {
            None => forall|i: int|
                0 <= i < chunks.len() ==> (#[trigger] chunks[i]).type_code != t,
            Some(i) => 0 <= i < chunks.len() && chunks[i].type_code == t && (forall|j: int|
                0 <= j < i ==> (#[trigger] chunks[j]).type_code != t),
        },
    decreases chunks.len(),
{
    if chunks.len() > 0 && chunks[0].type_code != t {
        let rest = chunks.drop_first();
        lemma_first_match_properties(rest, t);
        match spec_first_match(rest, t) {
            None => {
                assert forall|i: int|
                    0 <= i < chunks.len() implies (#[trigger] chunks[i]).type_code != t by {
                    if i > 0 {
                        assert(chunks[i] == rest[i - 1]);
                    }
                }
            },
            Some(i) => {
                assert(chunks[i + 1] == rest[i]);
                assert forall|j: int|
                    0 <= j < i + 1 implies (#[trigger] chunks[j]).type_code != t by {
                    if j > 0 {
                        assert(chunks[j] == rest[j - 1]);
                    }
                }
            },
        }
    }
}

/// A chunk with the type code at `i`, preceded by none with it, is
/// exactly what [`spec_first_match`] finds.
pub proof fn lemma_first_match_at(chunks: Seq<ChunkView>, t: ChunkType, i: int)
    requires
        0 <= i < chunks.len(),
        chunks[i].type_code == t,
        forall|j: int| 0 <= j < i ==> (#[trigger] chunks[j]).type_code != t,
    ensures
        spec_first_match(chunks, t) == Some(i),
    decreases chunks.len(),
{
    if i > 0 {
        let rest = chunks.drop_first();
        assert(rest[i - 1] == chunks[i]);
        assert forall|j: int| 0 <= j < i - 1 implies (#[trigger] rest[j]).type_code != t by {
            assert(rest[j] == chunks[j + 1]);
        }
        lemma_first_match_at(rest, t, i - 1);
    }
}

/// When no chunk has the type code, [`spec_first_match`] finds none.
pub proof fn lemma_first_match_none(chunks: Seq<ChunkView>, t: ChunkType)
    requires
        forall|j: int| 0 <= j < chunks.len() ==> (#[trigger] chunks[j]).type_code != t,
    ensures
        spec_first_match(chunks, t) is None,
    decreases chunks.len(),
{
    if chunks.len() > 0 {
        let rest = chunks.drop_first();
        assert forall|j: int| 0 <= j < rest.len() implies (#[trigger] rest[j]).type_code != t by {
            assert(rest[j] == chunks[j + 1]);
        }
        lemma_first_match_none(rest, t);
    }
}

/// Appending a chunk's encoding at the end of a concatenation.
proof fn lemma_concat_snoc(chunks: Seq<ChunkView>, m: ChunkView)
    ensures
        spec_concat_chunks(chunks.push(m)) == spec_concat_chunks(chunks) + m.spec_bytes(),
    decreases chunks.len(),
{
    if chunks.len() == 0 {
        assert(chunks.push(m)[0] == m);
        assert(chunks.push(m).drop_first() =~= Seq::<ChunkView>::empty());
        assert(spec_concat_chunks(Seq::<ChunkView>::empty()) == Seq::<u8>::empty());
        assert(spec_concat_chunks(chunks.push(m)) == m.spec_bytes()
            + spec_concat_chunks(chunks.push(m).drop_first()));
        assert(spec_concat_chunks(chunks.push(m)) =~= spec_concat_chunks(chunks)
            + m.spec_bytes());
    } else {
        assert(chunks.push(m)[0] == chunks[0]);
        assert(chunks.push(m).drop_first() =~= chunks.drop_first().push(m));
        lemma_concat_snoc(chunks.drop_first(), m);
        assert(spec_concat_chunks(chunks.push(m)) == chunks[0].spec_bytes() + (
        spec_concat_chunks(chunks.drop_first()) + m.spec_bytes()));
        assert(chunks[0].spec_bytes() + (spec_concat_chunks(chunks.drop_first())
            + m.spec_bytes()) =~= (chunks[0].spec_bytes() + spec_concat_chunks(
        chunks.drop_first())) + m.spec_bytes());
    }
}

/// Parsing the concatenated encodings of well-formed chunks yields
/// exactly those chunks.
pub proof fn lemma_parse_chunks_of_concat(chunks: Seq<ChunkView>)
    requires
        forall|i: int| 0 <= i < chunks.len() ==> (#[trigger] chunks[i]).wf(),
    ensures
        spec_parse_chunks(spec_concat_chunks(chunks)) == Ok::<Seq<ChunkView>, PngError>(chunks),
    decreases chunks.len(),
{
    if chunks.len() == 0 {
        assert(spec_parse_chunks(spec_concat_chunks(chunks)) == Ok::<Seq<ChunkView>, PngError>(
            Seq::empty(),
        ));
        assert(chunks =~= Seq::<ChunkView>::empty());
    } else {
        let m = chunks[0];
        let rest = chunks.drop_first();
        let b = spec_concat_chunks(chunks);
        let mb = m.spec_bytes();
        assert(b == mb + spec_concat_chunks(rest));
        assert(mb.len() == 12 + m.data.len());
        assert(b.subrange(0, 4) =~= mb.subrange(0, 4));
        lemma_u32_from_to_be_bytes(m.length);
        assert(mb.subrange(0, 4) =~= crate::byte_order::spec_u32_to_be_bytes(m.length));
        let length = spec_u32_from_be_bytes(b.subrange(0, 4));
        assert(length == m.length);
        assert(b.len() == 12 + m.length + spec_concat_chunks(rest).len());
        assert(b.subrange(0, 12 + length as int) =~= mb);
        lemma_chunk_round_trip(m);
        assert(spec_parse_chunk(b.subrange(0, 12 + length as int)) == Ok::<ChunkView, PngError>(
            m,
        ));
        assert(b.skip(12 + length as int) =~= spec_concat_chunks(rest));
        lemma_parse_chunks_of_concat(rest);
        assert(seq![m] + rest =~= chunks);
    }
}

/// Parsing fixes the bytes: concatenating the encodings of the chunks
/// that parsing accepted yields exactly the bytes that were parsed.
pub proof fn lemma_parse_chunks_bytes(bytes: Seq<u8>)
    requires
        spec_parse_chunks(bytes) is Ok,
    ensures
        spec_concat_chunks(spec_parse_chunks(bytes).unwrap()) == bytes,
    decreases bytes.len(),
{
    if bytes.len() == 0 {
        assert(spec_concat_chunks(spec_parse_chunks(bytes).unwrap()) =~= bytes);
    } else {
        let length = spec_u32_from_be_bytes(bytes.subrange(0, 4));
        let tail = bytes.skip(12 + length as int);
        lemma_parse_chunks_bytes(tail);
        lemma_parse_chunks_bytes_step(bytes);
    }
}

/// The inductive step of [`lemma_parse_chunks_bytes`]: with the tail
/// already known to serialize back to itself, so does the whole.
proof fn lemma_parse_chunks_bytes_step(bytes: Seq<u8>)
    requires
        bytes.len() != 0,
        spec_parse_chunks(bytes) is Ok,
        spec_concat_chunks(
            spec_parse_chunks(
                bytes.skip(12 + spec_u32_from_be_bytes(bytes.subrange(0, 4)) as int),
            ).unwrap(),
        ) == bytes.skip(12 + spec_u32_from_be_bytes(bytes.subrange(0, 4)) as int),
    ensures
        spec_concat_chunks(spec_parse_chunks(bytes).unwrap()) == bytes,
{
    let length = spec_u32_from_be_bytes(bytes.subrange(0, 4));
    let head = bytes.subrange(0, 12 + length as int);
    let m = spec_parse_chunk(head).unwrap();
    let tail = bytes.skip(12 + length as int);
    let rest = spec_parse_chunks(tail).unwrap();
    assert(spec_parse_chunks(bytes).unwrap() == seq![m] + rest);
    lemma_chunk_bytes_round_trip(head);
    lemma_concat_cons(m, rest);
    assert(spec_concat_chunks(spec_parse_chunks(bytes).unwrap()) == head + tail);
    bytes.lemma_split_at(12 + length as int);
    assert(bytes.take(12 + length as int) == head);
    assert(head + tail == bytes);
}

/// Splitting off the first chunk of a concatenation.
proof fn lemma_concat_cons(m: ChunkView, rest: Seq<ChunkView>)
    ensures
        spec_concat_chunks(seq![m] + rest) == m.spec_bytes() + spec_concat_chunks(rest),
{
    let s = seq![m] + rest;
    assert(s.len() == 1 + rest.len());
    assert(s[0] == m);
    assert(s.drop_first() =~= rest);
}

/// Every chunk that parsing accepted is well formed.
pub proof fn lemma_parse_chunks_wf(bytes: Seq<u8>)
    requires
        spec_parse_chunks(bytes) is Ok,
    ensures
        forall|i: int|
            0 <= i < spec_parse_chunks(bytes).unwrap().len() ==> (
            #[trigger] spec_parse_chunks(bytes).unwrap()[i]).wf(),
    decreases bytes.len(),
{
    let all = spec_parse_chunks(bytes).unwrap();
    if bytes.len() != 0 {
        let length = spec_u32_from_be_bytes(bytes.subrange(0, 4));
        let head = bytes.subrange(0, 12 + length as int);
        let m = spec_parse_chunk(head).unwrap();
        let tail = bytes.skip(12 + length as int);
        lemma_parse_chunks_wf(tail);
        lemma_parse_chunk_wf(head);
        let rest = spec_parse_chunks(tail).unwrap();
        assert(all == seq![m] + rest);
        assert forall|i: int| 0 <= i < all.len() implies (#[trigger] all[i]).wf() by {
            if i == 0 {
                assert(all[i] == m);
            } else {
                assert(all[i] == rest[i - 1]);
            }
        }
    }
}

/// Serializing well-formed chunks as a container and parsing the bytes
/// back yields the same chunk list, in the same order.
pub proof fn lemma_png_round_trip(chunks: Seq<ChunkView>)
    requires
        forall|i: int| 0 <= i < chunks.len() ==> (#[trigger] chunks[i]).wf(),
    ensures
        spec_parse_png(spec_png_bytes(chunks)) == Ok::<Seq<ChunkView>, PngError>(chunks),
{
    let b = spec_png_bytes(chunks);
    assert(b.len() >= 8);
    assert(b.subrange(0, 8) =~= spec_signature());
    assert(b.skip(8) =~= spec_concat_chunks(chunks));
    lemma_parse_chunks_of_concat(chunks);
}

/// Parsing fixes the whole stream: serializing the container that
/// parsing accepted yields exactly the bytes that were parsed.
pub proof fn lemma_png_bytes_round_trip(bytes: Seq<u8>)
    requires
        spec_parse_png(bytes) is Ok,
    ensures
        spec_png_bytes(spec_parse_png(bytes).unwrap()) == bytes,
{
    lemma_parse_chunks_bytes(bytes.skip(8));
    bytes.lemma_split_at(8);
    assert(bytes.take(8) == bytes.subrange(0, 8));
}

/// Appending a chunk whose type code no present chunk carries and then
/// removing by that type code finds exactly the appended chunk, at the
/// end, and puts the list back as it was, in its original order.
/// Removing from a list without the type code fails instead, as the
/// contract of [`Png::remove_chunk`] states.
pub proof fn lemma_append_remove(chunks: Seq<ChunkView>, m: ChunkView)
    requires
        spec_first_match(chunks, m.type_code) is None,
    ensures
        spec_first_match(chunks.push(m), m.type_code) == Some(chunks.len() as int),
        chunks.push(m).remove(chunks.len() as int) == chunks,
{
    lemma_first_match_properties(chunks, m.type_code);
    let s = chunks.push(m);
    assert(s[chunks.len() as int] == m);
    assert forall|j: int| 0 <= j < chunks.len() implies (#[trigger] s[j]).type_code
        != m.type_code by {
        assert(s[j] == chunks[j]);
    }
    lemma_first_match_at(s, m.type_code, chunks.len() as int);
    assert(s.remove(chunks.len() as int) =~= chunks);
}

/// The container: the fixed signature plus an ordered chunk list.
#[derive(Debug)]
pub struct Png {
    pub chunks: Vec<Chunk>,
}

impl View for Png {
    type V = Seq<ChunkView>;

    open spec fn view(&self) -> Seq<ChunkView> {
        views_of(self.chunks@)
    }
}

impl Png {
    /// Builds a container holding the given chunks.
    pub fn from_chunks(chunks: Vec<Chunk>) -> (r: Png)
        ensures
            r@ == views_of(chunks@),
    {
        Png { chunks }
    }

    /// The chunks of the container, in order.
    pub fn chunks(&self) -> (r: &[Chunk])
        ensures
            r@ == self.chunks@,
            views_of(r@) == self@,
    {
        self.chunks.as_slice()
    }

    /// Appends a chunk at the end of the list; duplicate type codes are
    /// legal and nothing is validated against existing chunks.
    pub fn append_chunk(&mut self, chunk: Chunk)
        ensures
            final(self)@ == old(self)@.push(chunk@),
    {
        self.chunks.push(chunk);
        proof {
            assert(self@ =~= old(self)@.push(chunk@));
        }
    }

    /// A reference to the first chunk with the given type code, in list
    /// order, if any.
    pub fn find_chunk(&self, target: &ChunkType) -> (r: Option<&Chunk>)
        ensures
            match spec_first_match(self@, *target) {
                None => r is None,
                Some(i) => r matches Some(c) && c@ == self@[i],
            },
    {
        let n = self.chunks.len();
        let mut k: usize = 0;
        while k < n
            invariant
                n == self.chunks@.len(),
                0 <= k <= n,
                forall|j: int| 0 <= j < k ==> (#[trigger] self@[j]).type_code != *target,
            decreases n - k,
        {
            let c = &self.chunks[k];
            if c.chunk_type == *target {
                proof {
                    lemma_first_match_at(self@, *target, k as int);
                }
                return Some(c);
            }
            k += 1;
        }
        proof {
            lemma_first_match_none(self@, *target);
        }
        None
    }

    /// Removes and returns the first chunk with the given type code,
    /// preserving the relative order of the rest; fails with
    /// `ChunkNotFound` when no chunk matches.
    pub fn remove_chunk(&mut self, target: &ChunkType) -> (r: Result<Chunk, PngError>)
        ensures
            match spec_first_match(old(self)@, *target) {
                None => r matches Err(e) && e == PngError::ChunkNotFound && final(self)@ == old(
                    self,
                )@,
                Some(i) => r matches Ok(c) && c@ == old(self)@[i] && final(self)@ == old(
                    self,
                )@.remove(i),
            },
    {
        let n = self.chunks.len();
        let mut k: usize = 0;
        while k < n
            invariant
                *self == *old(self),
                n == self.chunks@.len(),
                0 <= k <= n,
                forall|j: int| 0 <= j < k ==> (#[trigger] self@[j]).type_code != *target,
            decreases n - k,
        {
            let found = self.chunks[k].chunk_type == *target;
            if found {
                proof {
                    lemma_first_match_at(self@, *target, k as int);
                }
                let c = self.chunks.remove(k);
                proof {
                    let s = old(self).chunks@;
                    assert(self.chunks@ == s.remove(k as int));
                    assert forall|j: int|
                        0 <= j < self.chunks@.len() implies #[trigger] views_of(self.chunks@)[j]
                        == views_of(s).remove(k as int)[j] by {
                        if j < k {
                            assert(s.remove(k as int)[j] == s[j]);
                            assert(views_of(s).remove(k as int)[j] == views_of(s)[j]);
                        } else {
                            assert(s.remove(k as int)[j] == s[j + 1]);
                            assert(views_of(s).remove(k as int)[j] == views_of(s)[j + 1]);
                        }
                    }
                    assert(views_of(self.chunks@) =~= views_of(s).remove(k as int));
                }
                return Ok(c);
            }
            k += 1;
        }
        proof {
            lemma_first_match_none(self@, *target);
        }
        Err(PngError::ChunkNotFound)
    }

    /// The container's binary encoding: signature, then each chunk's
    /// encoding in list order.  The exact byte-for-byte inverse of
    /// [`Png::try_from`] for any byte stream that it accepted.
    pub fn as_bytes(&self) -> (r: Vec<u8>)
        ensures
            r@ == spec_png_bytes(self@),
    {
        let mut out: Vec<u8> = Vec::new();
        let sig = signature();
        let mut k: usize = 0;
        while k < 8
            invariant
                0 <= k <= 8,
                sig@ == spec_signature(),
                out@ =~= spec_signature().subrange(0, k as int),
            decreases 8 - k,
        {
            out.push(sig[k]);
            proof {
                assert(out@ =~= spec_signature().subrange(0, k + 1 as int));
            }
            k += 1;
        }
        proof {
            assert(out@ =~= spec_signature());
            assert(self@.subrange(0, 0) =~= Seq::<ChunkView>::empty());
        }
        let n = self.chunks.len();
        let mut i: usize = 0;
        while i < n
            invariant
                n == self.chunks@.len(),
                0 <= i <= n,
                out@ == spec_signature() + spec_concat_chunks(self@.subrange(0, i as int)),
            decreases n - i,
        {
            let mut encoded = self.chunks[i].as_bytes();
            out.append(&mut encoded);
            proof {
                let prefix = self@.subrange(0, i as int);
                assert(self@.subrange(0, i + 1 as int) =~= prefix.push(self@[i as int]));
                lemma_concat_snoc(prefix, self@[i as int]);
            }
            i += 1;
        }
        proof {
            assert(self@.subrange(0, n as int) =~= self@);
        }
        out
    }

    /// Parses a complete byte stream into a container.
    ///
    /// Fails with `BadSignature` exactly when the stream does not begin
    /// with the fixed signature, whatever follows; chunk-level failures
    /// are propagated as the chunk parser reports them.
    pub fn try_from(bytes: &[u8]) -> (r: Result<Png, PngError>)
        ensures
            match spec_parse_png(bytes@) {
                Ok(ms) => r matches Ok(p) && p@ == ms,
                Err(e) => r matches Err(e2) && e2 == e,
            },
            (bytes@.len() < 8 || bytes@.subrange(0, 8) != spec_signature()) <==> (r matches Err(e)
                && e == PngError::BadSignature),
            r matches Ok(p) ==> forall|i: int| 0 <= i < p@.len() ==> (#[trigger] p@[i]).wf(),
    {
        proof {
            if spec_parse_png(bytes@) is Ok {
                lemma_parse_chunks_wf(bytes@.skip(8));
            }
        }
        let n: usize = bytes.len();
        if n < 8 {
            return Err(PngError::BadSignature);
        }
        let sig = signature();
        let mut k: usize = 0;
        while k < 8
            invariant
                n == bytes@.len(),
                8 <= n,
                0 <= k <= 8,
                sig@ == spec_signature(),
                forall|j: int| 0 <= j < k ==> bytes@[j] == spec_signature()[j],
            decreases 8 - k,
        {
            if *vstd::slice::slice_index_get(bytes, k) != sig[k] {
                proof {
                    assert(bytes@.subrange(0, 8)[k as int] != spec_signature()[k as int]);
                }
                return Err(PngError::BadSignature);
            }
            k += 1;
        }
        proof {
            assert(bytes@.subrange(0, 8) =~= spec_signature());
        }
        let mut chunks: Vec<Chunk> = Vec::new();
        let mut offset: usize = 8;
        proof {
            assert(views_of(chunks@) =~= Seq::<ChunkView>::empty());
            if spec_parse_chunks(bytes@.skip(8)) is Ok {
                let rest = spec_parse_chunks(bytes@.skip(8)).unwrap();
                assert(views_of(chunks@) + rest =~= rest);
            }
        }
        while offset < n
            invariant
                n == bytes@.len(),
                8 <= offset <= n,
                bytes@.subrange(0, 8) == spec_signature(),
                spec_parse_chunks(bytes@.skip(8)) == (match spec_parse_chunks(
                    bytes@.skip(offset as int),
                ) {
                    Ok(rest) => Ok::<Seq<ChunkView>, PngError>(views_of(chunks@) + rest),
                    Err(e) => Err::<Seq<ChunkView>, PngError>(e),
                }),
            decreases n - offset,
        {
            let ghost tail = bytes@.skip(offset as int);
            let remaining = n - offset;
            if remaining < 12 {
                return Err(PngError::MalformedChunk);
            }
            let length = u32_from_be_bytes_at(bytes, offset);
            proof {
                assert(tail.subrange(0, 4) =~= bytes@.subrange(offset as int, offset as int + 4));
            }
            if ((remaining - 12) as u64) < (length as u64) {
                return Err(PngError::MalformedChunk);
            }
            let chunk_end = offset + 12 + (length as usize);
            let sub = vstd::slice::slice_subrange(bytes, offset, chunk_end);
            proof {
                assert(sub@ =~= tail.subrange(0, 12 + length as int));
            }
            let parsed = Chunk::try_from(sub);
            match parsed {
                Err(e) => {
                    proof {
                        assert(e != PngError::BadSignature);
                    }
                    return Err(e);
                },
                Ok(c) => {
                    let ghost pre = views_of(chunks@);
                    let ghost m = spec_parse_chunk(sub@).unwrap();
                    chunks.push(c);
                    proof {
                        assert(tail.skip(12 + length as int) =~= bytes@.skip(chunk_end as int));
                        assert(views_of(chunks@) =~= pre.push(m));
                        if spec_parse_chunks(bytes@.skip(chunk_end as int)) is Ok {
                            let rest = spec_parse_chunks(bytes@.skip(chunk_end as int)).unwrap();
                            assert(spec_parse_chunks(tail) == Ok::<Seq<ChunkView>, PngError>(
                                seq![m] + rest,
                            ));
                            assert(pre + (seq![m] + rest) =~= pre.push(m) + rest);
                        }
                    }
                    offset = chunk_end;
                },
            }
        }
        proof {
            assert(bytes@.skip(n as int) =~= Seq::<u8>::empty());
            let whole = views_of(chunks@);
            assert(whole + spec_parse_chunks(bytes@.skip(n as int)).unwrap() =~= whole);
        }
        let p = Png { chunks };
        Ok(p)
    }
}

} // verus!
