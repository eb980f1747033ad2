//! The container: a fixed eight-byte signature followed by chunks laid
//! back-to-back. Parsing verifies the signature and every chunk in turn and
//! must consume the input exactly; serialization is its inverse.

use vstd::prelude::*;
use vstd::utf8::encode_utf8;
use crate::chunk::{Chunk, ChunkError, ChunkModel};
use crate::chunk::{spec_chunk_bytes, spec_chunk_size, spec_parse_chunk, lemma_parse_chunk_embedded};
use crate::chunk_type::valid_code;

verus! {

/// The fixed signature that prefixes every serialized container.
pub open spec fn spec_signature() -> Seq<u8> {
    seq![137u8, 80u8, 78u8, 71u8, 13u8, 10u8, 26u8, 10u8]
}

/// The error raised by a container operation that failed.
#[derive(Debug, PartialEq, Eq)]
pub enum PngError {
    /// The input does not start with the signature.
    BadSignature,
    /// A chunk was rejected while parsing; the whole container is rejected.
    Chunk(ChunkError),
    /// No chunk carries the requested type code, which is reported back.
    ChunkTypeNotFound(String),
}

/// The outcome of parsing chunks back-to-back from offset `s` to the exact
/// end of `v`: the chunk sequence, or the first chunk's error.
pub open spec fn spec_parse_chunks(v: Seq<u8>, s: int) -> Result<Seq<ChunkModel>, ChunkError>
    decreases v.len() - s
        when s <= v.len()
{
    if s == v.len() {
        Ok(seq![])
    } else {
        match spec_parse_chunk(v, s) {
            Err(e) => Err(e),
            Ok(m) => match spec_parse_chunks(v, s + spec_chunk_size(v, s)) {
                Err(e) => Err(e),
                Ok(rest) => Ok(seq![m] + rest),
            },
        }
    }
}

/// The outcome of parsing a whole container: signature check first, then the
/// chunks, which must exhaust the input.
pub open spec fn spec_parse_png(v: Seq<u8>) -> Result<Seq<ChunkModel>, PngError> {
    if v.len() < 8 || v.subrange(0, 8) != spec_signature() {
        Err(PngError::BadSignature)
    } else {
        match spec_parse_chunks(v, 8) {
            Err(e) => Err(PngError::Chunk(e)),
            Ok(ms) => Ok(ms),
        }
    }
}

/// The concatenated wire forms of a chunk sequence.
pub open spec fn spec_chunks_bytes(ms: Seq<ChunkModel>) -> Seq<u8>
    decreases ms.len(),
{
    if ms.len() == 0 {
        seq![]
    } else {
        spec_chunk_bytes(ms[0]) + spec_chunks_bytes(ms.drop_first())
    }
}

/// The serialized container: signature, then every chunk in order.
pub open spec fn spec_png_bytes(ms: Seq<ChunkModel>) -> Seq<u8> {
    spec_signature() + spec_chunks_bytes(ms)
}

proof fn lemma_chunks_bytes_snoc(ms: Seq<ChunkModel>, m: ChunkModel)
    ensures
        spec_chunks_bytes(ms.push(m)) == spec_chunks_bytes(ms) + spec_chunk_bytes(m),
    decreases ms.len(),
{
    if ms.len() == 0 {
        assert(ms.push(m).drop_first() =~= ms);
        assert(ms.push(m)[0] == m);
        assert(spec_chunks_bytes(ms.push(m)) == spec_chunk_bytes(m) + spec_chunks_bytes(ms));
        assert(spec_chunk_bytes(m) + spec_chunks_bytes(ms) =~= spec_chunks_bytes(ms)
            + spec_chunk_bytes(m));
    } else {
        assert(ms.push(m).drop_first() =~= ms.drop_first().push(m));
        lemma_chunks_bytes_snoc(ms.drop_first(), m);
        let h = spec_chunk_bytes(ms[0]);
        let x = spec_chunks_bytes(ms.drop_first());
        let y = spec_chunk_bytes(m);
        assert(ms.push(m)[0] == ms[0]);
        assert(spec_chunks_bytes(ms.push(m)) == h + (x + y));
        assert(spec_chunks_bytes(ms) == h + x);
        assert(h + (x + y) =~= (h + x) + y);
    }
}

proof fn lemma_parse_chunks_of_serialization(v: Seq<u8>, s: int, ms: Seq<ChunkModel>)
    requires
        0 <= s <= v.len(),
        forall|i: int| 0 <= i < ms.len() ==> valid_code((#[trigger] ms[i]).ty)
            && ms[i].data.len() <= u32::MAX,
        v.subrange(s, v.len() as int) == spec_chunks_bytes(ms),
    ensures
        spec_parse_chunks(v, s) == Ok::<Seq<ChunkModel>, ChunkError>(ms),
    decreases ms.len(),
{
    if ms.len() == 0 {
        assert(v.len() - s == spec_chunks_bytes(ms).len());
        assert(s == v.len());
        assert(ms =~= Seq::<ChunkModel>::empty());
        assert(spec_parse_chunks(v, s) == Ok::<Seq<ChunkModel>, ChunkError>(ms));
    } else {
        let m = ms[0];
        let w = spec_chunk_bytes(m);
        let rest = spec_chunks_bytes(ms.drop_first());
        assert(spec_chunks_bytes(ms) == w + rest);
        assert(v.len() - s == w.len() + rest.len());
        assert forall|j: int| 0 <= j < v.len() - s implies v[s + j]
            == #[trigger] spec_chunks_bytes(ms)[j] by {
            assert(v.subrange(s, v.len() as int)[j] == spec_chunks_bytes(ms)[j]);
        }
        assert(w.len() == 12 + m.data.len());
        assert forall|j: int| 0 <= j < w.len() implies v.subrange(s, s + w.len() as int)[j]
            == w[j] by {
            assert(v[s + j] == spec_chunks_bytes(ms)[j]);
            assert(spec_chunks_bytes(ms)[j] == (w + rest)[j]);
            assert((w + rest)[j] == w[j]);
        }
        assert(v.subrange(s, s + w.len() as int) =~= w);
        lemma_parse_chunk_embedded(v, s, m);
        let s2 = s + w.len() as int;
        assert forall|j: int| 0 <= j < v.len() - s2 implies v.subrange(s2, v.len() as int)[j]
            == rest[j] by {
            assert(v[s2 + j] == spec_chunks_bytes(ms)[w.len() + j]);
            assert(spec_chunks_bytes(ms)[w.len() + j] == (w + rest)[w.len() + j]);
            assert((w + rest)[w.len() + j] == rest[j]);
        }
        assert(v.subrange(s2, v.len() as int) =~= rest);
        lemma_parse_chunks_of_serialization(v, s2, ms.drop_first());
        assert(seq![m] + ms.drop_first() =~= ms);
        assert(s < v.len());
        assert(spec_parse_chunk(v, s) == Ok::<ChunkModel, ChunkError>(m));
        assert(s + spec_chunk_size(v, s) == s2);
        assert(spec_parse_chunks(v, s2) == Ok::<Seq<ChunkModel>, ChunkError>(ms.drop_first()));
        assert(spec_parse_chunks(v, s) == Ok::<Seq<ChunkModel>, ChunkError>(seq![m]
            + ms.drop_first()));
        assert(spec_parse_chunks(v, s) == Ok::<Seq<ChunkModel>, ChunkError>(ms));
    }
}

/// Round-trip for a whole container: parsing the serialized form of any
/// sequence of well-formed chunks succeeds and yields an equal sequence.
pub proof fn lemma_png_round_trip(ms: Seq<ChunkModel>)
    requires
        forall|i: int| 0 <= i < ms.len() ==> valid_code((#[trigger] ms[i]).ty)
            && ms[i].data.len() <= u32::MAX,
    ensures
        spec_parse_png(spec_png_bytes(ms)) == Ok::<Seq<ChunkModel>, PngError>(ms),
{
    let v = spec_png_bytes(ms);
    assert(v.subrange(0, 8) =~= spec_signature());
    assert forall|j: int| 0 <= j < v.len() - 8 implies v.subrange(8, v.len() as int)[j]
        == spec_chunks_bytes(ms)[j] by {
        assert(v[8 + j] == spec_chunks_bytes(ms)[j]);
    }
    assert(v.subrange(8, v.len() as int) =~= spec_chunks_bytes(ms));
    lemma_parse_chunks_of_serialization(v, 8, ms);
}

/// Appending a chunk whose type code no present chunk carries, and then
/// removing the first chunk of that type, restores the original sequence:
/// the appended chunk is the first and only match, and removing it at the
/// end leaves every earlier chunk in place and in order.
pub proof fn lemma_append_remove(ms: Seq<ChunkModel>, m: ChunkModel)
    requires
        forall|i: int| 0 <= i < ms.len() ==> (#[trigger] ms[i]).ty != m.ty,
    ensures
        forall|j: int| 0 <= j < ms.len() ==> (#[trigger] ms.push(m)[j]).ty != m.ty,
        ms.push(m)[ms.len() as int].ty == m.ty,
        ms.push(m).remove(ms.len() as int) == ms,
{
    assert(ms.push(m).remove(ms.len() as int) =~= ms);
}

/// The container: an ordered sequence of chunks behind the fixed signature.
#[derive(Debug)]
pub struct Png {
    chunks: Vec<Chunk>,
}

impl View for Png {
    type V = Seq<ChunkModel>;

    closed spec fn view(&self) -> Seq<ChunkModel> {
        self.chunks@.map_values(|c: Chunk| c@)
    }
}

impl Png {
    /// Builds a container directly from a chunk sequence.
    pub fn from_chunks(chunks: Vec<Chunk>) -> (r: Png)
        ensures
            r@ == chunks@.map_values(|c: Chunk| c@),
    {
        Png { chunks }
    }

    /// Parses a whole byte buffer: the signature, then chunks back-to-back
    /// until the buffer is exactly exhausted. The first chunk error aborts
    /// the parse and is reported wrapped; trailing garbage cannot hide, for
    /// it must itself parse as chunks.
    pub fn try_from(value: &[u8]) -> (r: Result<Png, PngError>)
        ensures
            r is Ok <==> spec_parse_png(value@) is Ok,
            r matches Ok(p) ==> spec_parse_png(value@) == Ok::<Seq<ChunkModel>, PngError>(p@),
            r matches Err(e) ==> spec_parse_png(value@) == Err::<Seq<ChunkModel>, PngError>(e),
    {
        if value.len() < 8 {
            return Err(PngError::BadSignature);
        }
        let sig_ok = value[0] == 137 && value[1] == 80 && value[2] == 78 && value[3] == 71
            && value[4] == 13 && value[5] == 10 && value[6] == 26 && value[7] == 10;
        proof {
            let sub = value@.subrange(0, 8);
            assert(sub[0] == value@[0] && sub[1] == value@[1] && sub[2] == value@[2] && sub[3]
                == value@[3] && sub[4] == value@[4] && sub[5] == value@[5] && sub[6] == value@[6]
                && sub[7] == value@[7]);
            if sig_ok {
                assert(sub =~= spec_signature());
            }
        }
        if !sig_ok {
            return Err(PngError::BadSignature);
        }
        let ghost whole = spec_parse_chunks(value@, 8);
        let mut chunks: Vec<Chunk> = Vec::new();
        let mut offset: usize = 8;
        while offset < value.len()
            invariant
                8 <= offset <= value@.len(),
                value@.len() <= usize::MAX,
                value@.subrange(0, 8) == spec_signature(),
                whole == spec_parse_chunks(value@, 8),
                match spec_parse_chunks(value@, offset as int) {
                    Ok(rest) => whole == Ok::<Seq<ChunkModel>, ChunkError>(
                        chunks@.map_values(|c: Chunk| c@) + rest,
                    ),
                    Err(e) => whole == Err::<Seq<ChunkModel>, ChunkError>(e),
                },
            decreases value@.len() - offset,
        {
            match Chunk::parse_at(value, offset) {
                Ok((c, next)) => {
                    let ghost cm = c@;
                    let ghost prev = chunks@.map_values(|c: Chunk| c@);
                    chunks.push(c);
                    proof {
                        assert(chunks@.map_values(|c: Chunk| c@) =~= prev.push(cm));
                        if spec_parse_chunks(value@, next as int) is Ok {
                            let rest2 = spec_parse_chunks(value@, next as int)->Ok_0;
                            assert(spec_parse_chunks(value@, offset as int)
                                == Ok::<Seq<ChunkModel>, ChunkError>(seq![cm] + rest2));
                            assert(prev + (seq![cm] + rest2) =~= prev.push(cm) + rest2);
                        }
                    }
                    offset = next;
                },
                Err(e) => {
                    proof {
                        assert(spec_parse_chunks(value@, offset as int)
                            == Err::<Seq<ChunkModel>, ChunkError>(e));
                    }
                    return Err(PngError::Chunk(e));
                },
            }
        }
        proof {
            assert(spec_parse_chunks(value@, offset as int) == Ok::<Seq<ChunkModel>, ChunkError>(
                Seq::<ChunkModel>::empty(),
            ));
            assert(chunks@.map_values(|c: Chunk| c@) + Seq::<ChunkModel>::empty()
                =~= chunks@.map_values(|c: Chunk| c@));
        }
        Ok(Png { chunks })
    }

    /// The chunks, in stored order.
    pub fn chunks(&self) -> (r: &[Chunk])
        ensures
            r@.len() == self@.len(),
            forall|i: int| 0 <= i < r@.len() ==> (#[trigger] r@[i])@ == self@[i],
    {
        self.chunks.as_slice()
    }

    /// Appends a chunk at the end of the sequence; type codes need not be
    /// unique.
    pub fn append_chunk(&mut self, chunk: Chunk)
        ensures
            final(self)@ == old(self)@.push(chunk@),
    {
        let ghost cm = chunk@;
        self.chunks.push(chunk);
        proof {
            assert(self@ =~= old(self)@.push(cm));
        }
    }

    /// The first chunk, in stored order, whose type code's text form equals
    /// the given text; absence is a normal outcome, not an error.
    pub fn chunk_by_type(&self, chunk_type: &str) -> (r: Option<&Chunk>)
        ensures
            r matches Some(c) ==> exists|i: int|
                {
                    &&& 0 <= i < self@.len()
                    &&& c@ == self@[i]
                    &&& (#[trigger] self@[i]).ty == encode_utf8(chunk_type@)
                    &&& forall|j: int| 0 <= j < i ==> (#[trigger] self@[j]).ty != encode_utf8(
                        chunk_type@,
                    )
                },
            r is None <==> (forall|i: int| 0 <= i < self@.len() ==> (#[trigger] self@[i]).ty
                != encode_utf8(chunk_type@)),
    {
        let target = chunk_type.as_bytes();
        let mut i: usize = 0;
        while i < self.chunks.len()
            invariant
                i <= self.chunks@.len(),
                target@ == encode_utf8(chunk_type@),
                self@ == self.chunks@.map_values(|c: Chunk| c@),
                forall|j: int| 0 <= j < i ==> (#[trigger] self@[j]).ty != encode_utf8(
                    chunk_type@,
                ),
            decreases self.chunks@.len() - i,
        {
            if code_matches(self.chunks[i].chunk_type(), target) {
                proof {
                    let gi = i as int;
                    assert(self@[gi] == self.chunks@[gi]@);
                    assert(self@[gi].ty == encode_utf8(chunk_type@));
                }
                return Some(&self.chunks[i]);
            }
            i += 1;
        }
        None
    }

    /// Removes and returns the first chunk whose type code's text form equals
    /// the given text, keeping the rest in order; reports the requested text
    /// back when no chunk matches.
    pub fn remove_chunk(&mut self, chunk_type: &str) -> (r: Result<Chunk, PngError>)
        ensures
            r matches Ok(c) ==> exists|i: int|
                {
                    &&& 0 <= i < old(self)@.len()
                    &&& c@ == old(self)@[i]
                    &&& (#[trigger] old(self)@[i]).ty == encode_utf8(chunk_type@)
                    &&& (forall|j: int| 0 <= j < i ==> (#[trigger] old(self)@[j]).ty
                        != encode_utf8(chunk_type@))
                    &&& final(self)@ == old(self)@.remove(i)
                },
            r matches Err(e) ==> {
                &&& final(self)@ == old(self)@
                &&& e matches PngError::ChunkTypeNotFound(n) && n@ == chunk_type@
                &&& forall|i: int| 0 <= i < old(self)@.len() ==> (#[trigger] old(self)@[i]).ty
                    != encode_utf8(chunk_type@)
            },
            r is Ok <==> exists|i: int| 0 <= i < old(self)@.len()
                && (#[trigger] old(self)@[i]).ty == encode_utf8(chunk_type@),
    {
        let target = chunk_type.as_bytes();
        let mut i: usize = 0;
        while i < self.chunks.len()
            invariant
                i <= self.chunks@.len(),
                target@ == encode_utf8(chunk_type@),
                self.chunks@ == old(self).chunks@,
                forall|j: int| 0 <= j < i ==> (#[trigger] old(self)@[j]).ty != encode_utf8(
                    chunk_type@,
                ),
            decreases self.chunks@.len() - i,
        {
            if code_matches(self.chunks[i].chunk_type(), target) {
                let ghost gi = i as int;
                proof {
                    assert(old(self)@[gi] == self.chunks@[gi]@);
                    assert(old(self)@[gi].ty == encode_utf8(chunk_type@));
                }
                let c = self.chunks.remove(i);
                proof {
                    assert(self@ =~= old(self)@.remove(gi));
                    assert(c@ == old(self)@[gi]);
                    assert(0 <= gi < old(self)@.len() && c@ == old(self)@[gi] && old(
                        self,
                    )@[gi].ty == encode_utf8(chunk_type@) && (forall|j: int|
                        0 <= j < gi ==> (#[trigger] old(self)@[j]).ty != encode_utf8(
                            chunk_type@,
                        )) && self@ == old(self)@.remove(gi));
                }
                return Ok(c);
            }
            i += 1;
        }
        Err(PngError::ChunkTypeNotFound(chunk_type.to_owned()))
    }

    /// The container's wire form: the signature, then every chunk's bytes in
    /// order. Parsing these bytes back succeeds and yields an equal chunk
    /// sequence — the round-trip law for a whole container.
    pub fn as_bytes(&self) -> (r: Vec<u8>)
        ensures
            r@ == spec_png_bytes(self@),
            spec_parse_png(r@) == Ok::<Seq<ChunkModel>, PngError>(self@),
    {
        let out = self.serialize();
        proof {
            lemma_png_round_trip(self@);
        }
        out
    }

    /// Writes the signature and every chunk's wire form into a fresh buffer.
    fn serialize(&self) -> (r: Vec<u8>)
        ensures
            r@ == spec_png_bytes(self@),
            forall|j: int| 0 <= j < self@.len() ==> valid_code((#[trigger] self@[j]).ty)
                && self@[j].data.len() <= u32::MAX,
    {
        let mut out: Vec<u8> = Vec::new();
        out.push(137);
        out.push(80);
        out.push(78);
        out.push(71);
        out.push(13);
        out.push(10);
        out.push(26);
        out.push(10);
        proof {
            assert(out@ =~= spec_signature() + spec_chunks_bytes(self@.take(0)));
        }
        let mut i: usize = 0;
        while i < self.chunks.len()
            invariant
                i <= self.chunks@.len(),
                self@ == self.chunks@.map_values(|c: Chunk| c@),
                out@ == spec_signature() + spec_chunks_bytes(self@.take(i as int)),
                forall|j: int| 0 <= j < i ==> valid_code((#[trigger] self@[j]).ty)
                    && self@[j].data.len() <= u32::MAX,
            decreases self.chunks@.len() - i,
        {
            let ghost pre = spec_chunks_bytes(self@.take(i as int));
            let ghost w = spec_chunk_bytes(self@[i as int]);
            append_chunk_bytes(&mut out, &self.chunks[i]);
            proof {
                assert(out@ == (spec_signature() + pre) + w);
                assert(self@.take(i + 1) =~= self@.take(i as int).push(self@[i as int]));
                lemma_chunks_bytes_snoc(self@.take(i as int), self@[i as int]);
                assert(spec_chunks_bytes(self@.take(i + 1)) == pre + w);
                assert((spec_signature() + pre) + w =~= spec_signature() + (pre + w));
            }
            i += 1;
        }
        proof {
            assert(self@.take(self@.len() as int) =~= self@);
        }
        out
    }
}

/// Appends one chunk's wire form to a buffer.
fn append_chunk_bytes(out: &mut Vec<u8>, c: &Chunk)
    ensures
        final(out)@ == old(out)@ + spec_chunk_bytes(c@),
        valid_code(c@.ty),
        c@.data.len() <= u32::MAX,
{
    let mut cb = c.as_bytes();
    out.append(&mut cb);
}

/// The type code's four bytes equal the given byte string.
fn code_matches(ct: &crate::chunk_type::ChunkType, target: &[u8]) -> (r: bool)
    ensures
        r == (ct@ == target@),
{
    let tb = ct.bytes();
    if target.len() != 4 {
        return false;
    }
    if tb[0] == target[0] && tb[1] == target[1] && tb[2] == target[2] && tb[3] == target[3] {
        proof {
            assert(ct@ =~= target@);
        }
        true
    } else {
        false
    }
}

} // verus!
