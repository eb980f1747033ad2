//! One chunk of the container: a validated type code, an owned payload, and a
//! CRC-32 checksum over type-plus-payload. The wire form is
//! `length (u32, big-endian) | type (4 bytes) | data | checksum (u32, big-endian)`.

use vstd::prelude::*;
use vstd::utf8::{valid_utf8, decode_utf8};
use crate::chunk_type::{ChunkType, ChunkTypeError, valid_code, spec_validate};
use crate::chunk_type::{is_alpha_char, is_upper_char, lemma_ascii_byte_char};
use crate::chunk_type::{lemma_ascii_bytes_utf8, utf8_decode};

verus! {

/// The big-endian four-byte form of a 32-bit integer.
pub open spec fn spec_u32_to_be_bytes(x: u32) -> Seq<u8> {
    seq![
        ((x >> 24) & 0xff) as u8,
        ((x >> 16) & 0xff) as u8,
        ((x >> 8) & 0xff) as u8,
        (x & 0xff) as u8,
    ]
}

/// The 32-bit integer read from four big-endian bytes.
pub open spec fn spec_u32_from_be_bytes(s: Seq<u8>) -> u32
    recommends
        s.len() == 4,
{
    ((s[0] as u32) << 24) | ((s[1] as u32) << 16) | ((s[2] as u32) << 8) | (s[3] as u32)
}

/// Writing a 32-bit integer big-endian and reading it back is the identity.
pub proof fn lemma_u32_be_bytes_round_trip(x: u32)
    ensures
        spec_u32_to_be_bytes(x).len() == 4,
        spec_u32_from_be_bytes(spec_u32_to_be_bytes(x)) == x,
{
    let b0 = ((x >> 24) & 0xff) as u8;
    let b1 = ((x >> 16) & 0xff) as u8;
    let b2 = ((x >> 8) & 0xff) as u8;
    let b3 = (x & 0xff) as u8;
    assert(((b0 as u32) << 24) | ((b1 as u32) << 16) | ((b2 as u32) << 8) | (b3 as u32)
        == x) by (bit_vector)
        requires
            b0 == ((x >> 24) & 0xff) as u8,
            b1 == ((x >> 16) & 0xff) as u8,
            b2 == ((x >> 8) & 0xff) as u8,
            b3 == (x & 0xff) as u8,
    ;
}

fn u32_from_be(b0: u8, b1: u8, b2: u8, b3: u8) -> (r: u32)
    ensures
        r == spec_u32_from_be_bytes(seq![b0, b1, b2, b3]),
{
    ((b0 as u32) << 24) | ((b1 as u32) << 16) | ((b2 as u32) << 8) | (b3 as u32)
}

fn push_u32_be(out: &mut Vec<u8>, x: u32)
    ensures
        final(out)@ == old(out)@ + spec_u32_to_be_bytes(x),
{
    out.push(((x >> 24) & 0xff) as u8);
    out.push(((x >> 16) & 0xff) as u8);
    out.push(((x >> 8) & 0xff) as u8);
    out.push((x & 0xff) as u8);
    proof {
        assert(out@ =~= old(out)@ + spec_u32_to_be_bytes(x));
    }
}

/// The CRC-32 checksum of a byte sequence under the ISO-HDLC polynomial, as
/// the `crc` crate computes it for `CRC_32_ISO_HDLC`.
pub uninterp spec fn crc32_of(bytes: Seq<u8>) -> u32;

/// Relies on `crc::Crc::<u32>::checksum` with the `CRC_32_ISO_HDLC`
/// algorithm: the checksum is a function of the input bytes alone.
#[verifier::external_body]
fn crc32(bytes: &[u8]) -> (r: u32)
    ensures
        r == crc32_of(bytes@),
{
    crc::Crc::<u32>::new(&crc::CRC_32_ISO_HDLC).checksum(bytes)
}

/// The error raised by a chunk that was rejected.
#[derive(Debug, Clone, Copy, PartialEq, Eq, Structural)]
pub enum ChunkError {
    /// The input ended before a field could be fully read.
    Truncated,
    /// The checksum read from the wire differs from the recomputed one.
    Crc,
    /// The type code failed validation.
    ChunkType(ChunkTypeError),
}

/// The error raised when a payload is not valid UTF-8 text.
#[derive(Debug, Clone, Copy, PartialEq, Eq, Structural)]
pub struct DecodeError;

/// The mathematical content of a chunk: its type code bytes and its payload.
/// The length and the checksum of a well-formed chunk are functions of these.
pub struct ChunkModel {
    pub ty: Seq<u8>,
    pub data: Seq<u8>,
}

/// The checksum a well-formed chunk carries: CRC-32 over type then payload.
pub open spec fn spec_chunk_crc(m: ChunkModel) -> u32 {
    crc32_of(m.ty + m.data)
}

/// The wire form of a chunk.
pub open spec fn spec_chunk_bytes(m: ChunkModel) -> Seq<u8> {
    spec_u32_to_be_bytes(m.data.len() as u32) + m.ty + m.data + spec_u32_to_be_bytes(
        spec_chunk_crc(m),
    )
}

/// The outcome of parsing one chunk of `v` starting at offset `s`: the fields
/// are read in fixed order, and the first failure names the error. Bytes past
/// the chunk's own extent are left untouched.
pub open spec fn spec_parse_chunk(v: Seq<u8>, s: int) -> Result<ChunkModel, ChunkError> {
    if v.len() < s + 8 {
        Err(ChunkError::Truncated)
    } else {
        let l = spec_u32_from_be_bytes(v.subrange(s, s + 4)) as int;
        let t = v.subrange(s + 4, s + 8);
        match spec_validate(t) {
            Some(e) => Err(ChunkError::ChunkType(e)),
            None => if v.len() < s + 12 + l {
                Err(ChunkError::Truncated)
            } else {
                let d = v.subrange(s + 8, s + 8 + l);
                let c = spec_u32_from_be_bytes(v.subrange(s + 8 + l, s + 12 + l));
                if c != crc32_of(t + d) {
                    Err(ChunkError::Crc)
                } else {
                    Ok(ChunkModel { ty: t, data: d })
                }
            },
        }
    }
}

/// How many bytes the chunk starting at offset `s` occupies, meaningful when
/// parsing succeeds there.
pub open spec fn spec_chunk_size(v: Seq<u8>, s: int) -> int {
    12 + spec_u32_from_be_bytes(v.subrange(s, s + 4))
}

/// Parsing is the inverse of serialization: the wire form of a well-formed
/// chunk, read back from any position it is embedded at, yields that chunk
/// and consumes exactly its own bytes.
pub proof fn lemma_parse_chunk_embedded(v: Seq<u8>, s: int, m: ChunkModel)
    requires
        valid_code(m.ty),
        m.data.len() <= u32::MAX,
        0 <= s,
        s + spec_chunk_bytes(m).len() <= v.len(),
        v.subrange(s, s + spec_chunk_bytes(m).len() as int) == spec_chunk_bytes(m),
    ensures
        spec_parse_chunk(v, s) == Ok::<ChunkModel, ChunkError>(m),
        spec_chunk_size(v, s) == spec_chunk_bytes(m).len(),
{
    let w = spec_chunk_bytes(m);
    let a = spec_u32_to_be_bytes(m.data.len() as u32);
    let b = spec_u32_to_be_bytes(spec_chunk_crc(m));
    let n = m.data.len() as int;
    lemma_u32_be_bytes_round_trip(m.data.len() as u32);
    lemma_u32_be_bytes_round_trip(spec_chunk_crc(m));
    assert(w.len() == 12 + n);
    assert forall|j: int| 0 <= j < w.len() implies v[s + j] == #[trigger] w[j] by {
        assert(v.subrange(s, s + w.len() as int)[j] == w[j]);
    }
    assert forall|j: int| 0 <= j < 4 implies v.subrange(s, s + 4)[j] == a[j] by {
        assert(v[s + j] == w[j]);
        assert(w[j] == a[j]);
    }
    assert(v.subrange(s, s + 4) =~= a);
    assert forall|j: int| 0 <= j < 4 implies v.subrange(s + 4, s + 8)[j] == m.ty[j] by {
        assert(v[s + 4 + j] == w[4 + j]);
        assert(w[4 + j] == m.ty[j]);
    }
    assert(v.subrange(s + 4, s + 8) =~= m.ty);
    let l = spec_u32_from_be_bytes(v.subrange(s, s + 4)) as int;
    assert(l == n);
    assert(spec_validate(m.ty) is None) by {
        assert(forall|i: int| 0 <= i < m.ty.len() ==> #[trigger] m.ty[i] < 0x80);
        lemma_ascii_bytes_utf8(m.ty);
        let chars = decode_utf8(m.ty);
        assert(chars.len() == 4);
        assert forall|i: int| 0 <= i < 4 implies is_alpha_char(#[trigger] chars[i]) by {
            assert(chars[i] == m.ty[i] as char);
            lemma_ascii_byte_char(m.ty[i]);
        }
        assert(is_upper_char(chars[2])) by {
            assert(chars[2] == m.ty[2] as char);
            lemma_ascii_byte_char(m.ty[2]);
        }
    }
    assert forall|j: int| 0 <= j < n implies v.subrange(s + 8, s + 8 + n)[j] == m.data[j] by {
        assert(v[s + 8 + j] == w[8 + j]);
        assert(w[8 + j] == m.data[j]);
    }
    assert(v.subrange(s + 8, s + 8 + l) =~= m.data);
    assert forall|j: int| 0 <= j < 4 implies v.subrange(s + 8 + n, s + 12 + n)[j] == b[j] by {
        assert(v[s + 8 + n + j] == w[8 + n + j]);
        assert(w[8 + n + j] == b[j]);
    }
    assert(v.subrange(s + 8 + l, s + 12 + l) =~= b);
}

/// A chunk: a type code with an exclusively owned payload, its length, and
/// its checksum. Values of this type are always well formed: the length
/// equals the payload's byte count and the checksum is the CRC-32 of type
/// then payload, whether the chunk was built from parts or parsed.
#[derive(Debug)]
pub struct Chunk {
    chunk_type: ChunkType,
    data: Vec<u8>,
    length: u32,
    crc: u32,
}

impl View for Chunk {
    type V = ChunkModel;

    closed spec fn view(&self) -> ChunkModel {
        ChunkModel { ty: self.chunk_type@, data: self.data@ }
    }
}

/// The CRC-32 checksum over the type code's bytes followed by the payload.
fn compute_crc(ct: &ChunkType, data: &Vec<u8>) -> (r: u32)
    ensures
        r == crc32_of(ct@ + data@),
        valid_code(ct@),
{
    let tb = ct.bytes();
    let mut buf: Vec<u8> = Vec::new();
    buf.push(tb[0]);
    buf.push(tb[1]);
    buf.push(tb[2]);
    buf.push(tb[3]);
    proof {
        assert(buf@ =~= ct@ + data@.subrange(0, 0));
    }
    let mut i: usize = 0;
    while i < data.len()
        invariant
            i <= data@.len(),
            buf@ == ct@ + data@.subrange(0, i as int),
        decreases data@.len() - i,
    {
        buf.push(data[i]);
        proof {
            assert(buf@ =~= ct@ + data@.subrange(0, i + 1));
        }
        i += 1;
    }
    proof {
        assert(buf@ =~= ct@ + data@);
        assert(tb@ == ct@);
    }
    crc32(buf.as_slice())
}

impl Chunk {
    #[verifier::type_invariant]
    spec fn wf(self) -> bool {
        &&& valid_code(self.chunk_type@)
        &&& self.data@.len() <= u32::MAX
        &&& self.length == self.data@.len()
        &&& self.crc == spec_chunk_crc(self@)
    }

    /// Builds a chunk from a type code and a payload, computing length and
    /// checksum; the checksum is never taken as an input.
    pub fn new(chunk_type: ChunkType, data: Vec<u8>) -> (r: Chunk)
        requires
            data@.len() <= u32::MAX,
        ensures
            r@ == (ChunkModel { ty: chunk_type@, data: data@ }),
    {
        let crc = compute_crc(&chunk_type, &data);
        let length = data.len() as u32;
        Chunk { chunk_type, data, length, crc }
    }

    /// The payload's byte count.
    pub fn length(&self) -> (r: u32)
        ensures
            r == self@.data.len(),
    {
        proof {
            use_type_invariant(self);
        }
        self.length
    }

    /// The chunk's type code.
    pub fn chunk_type(&self) -> (r: &ChunkType)
        ensures
            r@ == self@.ty,
    {
        &self.chunk_type
    }

    /// The payload.
    pub fn data(&self) -> (r: &[u8])
        ensures
            r@ == self@.data,
    {
        self.data.as_slice()
    }

    /// The stored checksum, always the CRC-32 of type then payload.
    pub fn crc(&self) -> (r: u32)
        ensures
            r == spec_chunk_crc(self@),
    {
        proof {
            use_type_invariant(self);
        }
        self.crc
    }

    /// The payload interpreted as UTF-8 text, when it is valid UTF-8.
    pub fn data_as_string(&self) -> (r: Result<String, DecodeError>)
        ensures
            r is Ok <==> valid_utf8(self@.data),
            r matches Ok(s) ==> s@ == decode_utf8(self@.data),
    {
        match utf8_decode(&self.data) {
            Some(s) => Ok(s),
            None => Err(DecodeError),
        }
    }

    /// The chunk's wire form. Parsing these bytes succeeds and yields this
    /// chunk back — the round-trip law for a single chunk.
    pub fn as_bytes(&self) -> (r: Vec<u8>)
        ensures
            r@ == spec_chunk_bytes(self@),
            spec_parse_chunk(r@, 0) == Ok::<ChunkModel, ChunkError>(self@),
            spec_chunk_size(r@, 0) == r@.len(),
            valid_code(self@.ty),
            self@.data.len() <= u32::MAX,
    {
        proof {
            use_type_invariant(self);
        }
        let mut out: Vec<u8> = Vec::new();
        push_u32_be(&mut out, self.length);
        let tb = self.chunk_type.bytes();
        out.push(tb[0]);
        out.push(tb[1]);
        out.push(tb[2]);
        out.push(tb[3]);
        proof {
            assert(out@ =~= spec_u32_to_be_bytes(self.data@.len() as u32) + self.chunk_type@
                + self.data@.subrange(0, 0));
        }
        let mut i: usize = 0;
        while i < self.data.len()
            invariant
                i <= self.data@.len(),
                self.data@.len() <= u32::MAX,
                out@ == spec_u32_to_be_bytes(self.data@.len() as u32) + self.chunk_type@
                    + self.data@.subrange(0, i as int),
            decreases self.data@.len() - i,
        {
            out.push(self.data[i]);
            proof {
                assert(out@ =~= spec_u32_to_be_bytes(self.data@.len() as u32) + self.chunk_type@
                    + self.data@.subrange(0, i + 1));
            }
            i += 1;
        }
        proof {
            assert(self.data@.subrange(0, self.data@.len() as int) =~= self.data@);
        }
        push_u32_be(&mut out, self.crc);
        proof {
            assert(out@ =~= spec_chunk_bytes(self@));
            assert(out@.subrange(0, spec_chunk_bytes(self@).len() as int) =~= out@);
            lemma_parse_chunk_embedded(out@, 0, self@);
        }
        out
    }

    /// Parses one chunk from the front of `value`, reading length, type,
    /// payload and checksum in that order and recomputing the checksum.
    /// Bytes after the chunk's extent are ignored.
    pub fn try_from(value: &[u8]) -> (r: Result<Chunk, ChunkError>)
        ensures
            r is Ok <==> spec_parse_chunk(value@, 0) is Ok,
            r matches Ok(c) ==> spec_parse_chunk(value@, 0) == Ok::<ChunkModel, ChunkError>(c@),
            r matches Err(e) ==> spec_parse_chunk(value@, 0) == Err::<ChunkModel, ChunkError>(e),
    {
        match Chunk::parse_at(value, 0) {
            Ok((c, _)) => Ok(c),
            Err(e) => Err(e),
        }
    }

    /// Parses the chunk that starts at `start`, returning it together with
    /// the offset just past its extent.
    pub(crate) fn parse_at(v: &[u8], start: usize) -> (r: Result<(Chunk, usize), ChunkError>)
        requires
            start <= v@.len(),
        ensures
            r matches Ok(p) ==> {
                &&& spec_parse_chunk(v@, start as int) == Ok::<ChunkModel, ChunkError>(p.0@)
                &&& p.1 == start + spec_chunk_size(v@, start as int)
                &&& start + 12 <= p.1 <= v@.len()
            },
            r matches Err(e) ==> spec_parse_chunk(v@, start as int) == Err::<
                ChunkModel,
                ChunkError,
            >(e),
            r is Ok <==> spec_parse_chunk(v@, start as int) is Ok,
    {
        if v.len() - start < 8 {
            return Err(ChunkError::Truncated);
        }
        let l = u32_from_be(v[start], v[start + 1], v[start + 2], v[start + 3]);
        proof {
            assert(seq![v@[start as int], v@[start + 1], v@[start + 2], v@[start + 3]]
                =~= v@.subrange(start as int, start + 4));
        }
        let chunk_type = match ChunkType::try_from(
            vstd::slice::slice_subrange(v, start + 4, start + 8),
        ) {
            Ok(t) => t,
            Err(e) => {
                return Err(ChunkError::ChunkType(e));
            },
        };
        let l_usize = l as usize;
        if v.len() - start < 12 {
            return Err(ChunkError::Truncated);
        }
        if l_usize > v.len() - start - 12 {
            return Err(ChunkError::Truncated);
        }
        let mut data: Vec<u8> = Vec::new();
        proof {
            assert(data@ =~= v@.subrange(start + 8, start + 8));
        }
        let mut i: usize = 0;
        while i < l_usize
            invariant
                i <= l_usize,
                start + 12 + l_usize <= v@.len(),
                v@.len() <= usize::MAX,
                data@ == v@.subrange(start + 8, start + 8 + i),
            decreases l_usize - i,
        {
            data.push(v[start + 8 + i]);
            proof {
                assert(data@ =~= v@.subrange(start + 8, start + 8 + i + 1));
            }
            i += 1;
        }
        let crc_read = u32_from_be(
            v[start + 8 + l_usize],
            v[start + 9 + l_usize],
            v[start + 10 + l_usize],
            v[start + 11 + l_usize],
        );
        proof {
            assert(seq![
                v@[start + 8 + l_usize],
                v@[start + 9 + l_usize],
                v@[start + 10 + l_usize],
                v@[start + 11 + l_usize],
            ] =~= v@.subrange(start + 8 + l_usize, start + 12 + l_usize));
        }
        let crc_calc = compute_crc(&chunk_type, &data);
        if crc_read != crc_calc {
            return Err(ChunkError::Crc);
        }
        let chunk = Chunk { chunk_type, data, length: l, crc: crc_read };
        Ok((chunk, start + 12 + l_usize))
    }
}

/// Checksum determinism: chunks built from the same type code and the same
/// payload carry the same checksum.
pub proof fn lemma_checksum_deterministic(m1: ChunkModel, m2: ChunkModel)
    requires
        m1.ty == m2.ty,
        m1.data == m2.data,
    ensures
        spec_chunk_crc(m1) == spec_chunk_crc(m2),
{
}

} // verus!
