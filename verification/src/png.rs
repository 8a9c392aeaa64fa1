//! The chunk container: a signature followed by an ordered chunk sequence.

use vstd::prelude::*;

verus! {

use vstd::string::{StringExecFns, StringSliceAdditionalSpecFns};
use vstd::slice::slice_subrange;
use crate::chunk::{
    chunk_parse_spec, chunk_wf, spec_chunk_bytes, spec_render, Chunk, ChunkError,
};
use crate::wire::{be_u32, u32_be};

/// Errors from parsing or editing a container.
#[derive(Debug, PartialEq, Eq)]
pub enum PngError {
    /// The buffer does not begin with the PNG signature.
    BadSignature,
    /// A chunk of the buffer is malformed.
    Chunk(ChunkError),
    /// No chunk carries the requested type code.
    ChunkNotFound(String),
}

/// The fixed eight-byte PNG file signature.
pub open spec fn png_sig() -> Seq<u8> {
    seq![137u8, 80u8, 78u8, 71u8, 13u8, 10u8, 26u8, 10u8]
}

/// An ordered sequence of chunk records; the file signature is fixed and
/// implied.
#[derive(Debug)]
pub struct Png {
    pub chunks: Vec<Chunk>,
}

/// Every chunk of the sequence is well-formed.
pub open spec fn chunks_wf(cs: Seq<Chunk>) -> bool {
    forall|i: int| 0 <= i < cs.len() ==> chunk_wf(#[trigger] cs[i])
}

/// The concatenated byte encodings of a chunk sequence, in order.
pub open spec fn chunks_bytes(cs: Seq<Chunk>) -> Seq<u8>
    decreases cs.len(),
{
    if cs.len() == 0 {
        Seq::empty()
    } else {
        spec_chunk_bytes(cs[0]) + chunks_bytes(cs.drop_first())
    }
}

/// How many leading bytes the next chunk of a stream occupies: twelve
/// framing bytes plus the declared data length, capped at the stream's end.
pub open spec fn take_len(b: Seq<u8>) -> int {
    if b.len() >= 12 && 12 + be_u32(b.subrange(0, 4)) <= b.len() {
        12 + be_u32(b.subrange(0, 4))
    } else {
        b.len() as int
    }
}

/// Whether a byte stream is a valid sequence of chunks, and the first
/// error it exhibits otherwise.  Each chunk is sliced off by its declared
/// length and validated; chunks are consumed until the stream is empty.
pub open spec fn stream_check(b: Seq<u8>) -> Result<(), ChunkError>
    decreases b.len(),
{
    if b.len() == 0 {
        Ok(())
    } else {
        match chunk_parse_spec(b.subrange(0, take_len(b))) {
            Ok(td) => stream_check(b.skip(take_len(b))),
            Err(e) => Err(e),
        }
    }
}

/// Whether a chunk carries the given type code bytes.
pub open spec fn matches_type(c: Chunk, t: Seq<u8>) -> bool {
    c.chunk_type.bytes@ == t
}

/// The first index of a chunk carrying the given type code bytes, or -1.
pub open spec fn first_match(cs: Seq<Chunk>, t: Seq<u8>) -> int
    decreases cs.len(),
{
    if cs.len() == 0 {
        -1
    } else if matches_type(cs[0], t) {
        0
    } else if first_match(cs.drop_first(), t) == -1 {
        -1
    } else {
        first_match(cs.drop_first(), t) + 1
    }
}

proof fn lemma_first_match_is(cs: Seq<Chunk>, t: Seq<u8>, i: int)
    requires
        0 <= i < cs.len(),
        matches_type(cs[i], t),
        forall|j: int| 0 <= j < i ==> !matches_type(#[trigger] cs[j], t),
    ensures
        first_match(cs, t) == i,
    decreases cs.len(),
{
    if i > 0 {
        assert(forall|j: int| 0 <= j < i - 1 ==> cs.drop_first()[j] == cs[j + 1]);
        lemma_first_match_is(cs.drop_first(), t, i - 1);
    }
}

proof fn lemma_first_match_none(cs: Seq<Chunk>, t: Seq<u8>)
    requires
        forall|j: int| 0 <= j < cs.len() ==> !matches_type(#[trigger] cs[j], t),
    ensures
        first_match(cs, t) == -1,
    decreases cs.len(),
{
    if cs.len() > 0 {
        assert(forall|j: int| 0 <= j < cs.len() - 1 ==> cs.drop_first()[j] == cs[j + 1]);
        lemma_first_match_none(cs.drop_first(), t);
    }
}

/// Appending a chunk appends its bytes to the serialized form.
pub proof fn lemma_chunks_bytes_push(cs: Seq<Chunk>, c: Chunk)
    ensures
        chunks_bytes(cs.push(c)) == chunks_bytes(cs) + spec_chunk_bytes(c),
    decreases cs.len(),
{
    if cs.len() == 0 {
        assert(cs.push(c)[0] == c);
        assert(cs.push(c).drop_first() =~= Seq::<Chunk>::empty());
        assert(chunks_bytes(cs.push(c)) == spec_chunk_bytes(c) + chunks_bytes(
            Seq::<Chunk>::empty(),
        ));
        assert(chunks_bytes(cs.push(c)) =~= chunks_bytes(cs) + spec_chunk_bytes(c));
    } else {
        assert(cs.push(c)[0] == cs[0]);
        assert(cs.push(c).drop_first() =~= cs.drop_first().push(c));
        lemma_chunks_bytes_push(cs.drop_first(), c);
        assert(chunks_bytes(cs.push(c)) == spec_chunk_bytes(cs[0]) + (chunks_bytes(cs.drop_first())
            + spec_chunk_bytes(c)));
        assert(chunks_bytes(cs.push(c)) =~= chunks_bytes(cs) + spec_chunk_bytes(c));
    }
}

impl Png {
    /// A container holding the given chunk sequence.
    pub fn from_chunks(chunks: Vec<Chunk>) -> (r: Png)
        ensures
            r.chunks@ == chunks@,
    {
        Png { chunks }
    }

    /// Parses a whole file buffer: the PNG signature, then chunks until
    /// the buffer is exhausted.  Any chunk error aborts the parse.
    #[verifier::rlimit(50)]
    pub fn parse(b: &[u8]) -> (r: Result<Png, PngError>)
        ensures
            match r {
                Ok(p) => {
                    &&& b@.len() >= 8
                    &&& b@.subrange(0, 8) == png_sig()
                    &&& stream_check(b@.skip(8)) is Ok
                    &&& chunks_wf(p.chunks@)
                    &&& chunks_bytes(p.chunks@) == b@.skip(8)
                },
                Err(PngError::BadSignature) => !(b@.len() >= 8 && b@.subrange(0, 8)
                    == png_sig()),
                Err(PngError::Chunk(e)) => {
                    &&& b@.len() >= 8
                    &&& b@.subrange(0, 8) == png_sig()
                    &&& stream_check(b@.skip(8)) matches Err(se) && se == e
                },
                Err(PngError::ChunkNotFound(_)) => false,
            },
    {
        if b.len() < 8 {
            return Err(PngError::BadSignature);
        }
        if !(b[0] == 137 && b[1] == 80 && b[2] == 78 && b[3] == 71 && b[4] == 13 && b[5] == 10
            && b[6] == 26 && b[7] == 10) {
            proof {
                if b@.subrange(0, 8) == png_sig() {
                    assert(forall|j: int| 0 <= j < 8 ==> b@[j] == #[trigger] png_sig()[j]);
                    assert(false);
                }
            }
            return Err(PngError::BadSignature);
        }
        assert(b@.subrange(0, 8) =~= png_sig());
        let mut chunks: Vec<Chunk> = Vec::new();
        let mut i: usize = 8;
        while i < b.len()
            invariant
                8 <= i <= b@.len(),
                b@.subrange(0, 8) == png_sig(),
                chunks_wf(chunks@),
                chunks_bytes(chunks@) == b@.subrange(8, i as int),
                stream_check(b@.skip(8)) == stream_check(b@.skip(i as int)),
            decreases b@.len() - i,
        {
            let ghost tail = b@.skip(i as int);
            let rest = b.len() - i;
            let mut take: usize = rest;
            if rest >= 12 {
                let declared = crate::wire::be_to_u32(b[i], b[i + 1], b[i + 2], b[i + 3]);
                assert(seq![b@[i as int], b@[i as int + 1], b@[i as int + 2], b@[i as int + 3]]
                    =~= tail.subrange(0, 4));
                if (declared as u64) + 12 <= (rest as u64) {
                    take = ((declared as u64) + 12) as usize;
                }
            }
            assert(take == take_len(tail));
            let sl = slice_subrange(b, i, i + take);
            assert(sl@ =~= tail.subrange(0, take as int));
            match Chunk::from_bytes(sl) {
                Err(e) => {
                    proof {
                        assert(stream_check(tail) == Err::<(), ChunkError>(e));
                    }
                    return Err(PngError::Chunk(e));
                },
                Ok(c) => {
                    proof {
                        assert(rest >= 12) by {
                            if rest < 12 {
                                assert(chunk_parse_spec(sl@) is Err);
                            }
                        }
                        let td = chunk_parse_spec(sl@)->Ok_0;
                        crate::wire::lemma_be_u32_round_trip(sl@.subrange(0, 4));
                        assert(be_u32(sl@.subrange(0, 4)) == c.length);
                        assert(u32_be(c.length) =~= sl@.subrange(0, 4));
                        crate::wire::lemma_be_u32_round_trip(
                            sl@.subrange(sl@.len() - 4, sl@.len() as int),
                        );
                        assert(be_u32(sl@.subrange(sl@.len() - 4, sl@.len() as int)) == c.crc);
                        assert(u32_be(c.crc) =~= sl@.subrange(sl@.len() - 4, sl@.len() as int));
                        assert(spec_chunk_bytes(c) =~= sl@);
                        lemma_chunks_bytes_push(chunks@, c);
                        assert(forall|j: int|
                            0 <= j < chunks@.push(c).len() ==> chunk_wf(
                                #[trigger] chunks@.push(c)[j],
                            ));
                        assert(b@.subrange(8, i as int) + sl@ =~= b@.subrange(8, i + take));
                        assert(tail.skip(take as int) =~= b@.skip(i + take));
                        assert(stream_check(tail) == stream_check(b@.skip(i + take)));
                    }
                    chunks.push(c);
                    i += take;
                },
            }
        }
        assert(b@.skip(i as int) =~= Seq::<u8>::empty());
        assert(b@.subrange(8, i as int) =~= b@.skip(8));
        Ok(Png { chunks })
    }

    /// Appends a record at the end of the chunk sequence.
    pub fn append_chunk(&mut self, chunk: Chunk)
        ensures
            final(self).chunks@ == old(self).chunks@.push(chunk),
    {
        self.chunks.push(chunk);
    }

    /// The first chunk whose type code matches the given text, if any.
    pub fn chunk_by_type(&self, type_text: &str) -> (r: Option<&Chunk>)
        ensures
            match r {
                Some(c) => {
                    &&& first_match(self.chunks@, type_text.spec_bytes()) >= 0
                    &&& *c == self.chunks@[first_match(self.chunks@, type_text.spec_bytes())]
                },
                None => first_match(self.chunks@, type_text.spec_bytes()) == -1,
            },
    {
        let tb = type_text.as_bytes();
        let n = self.chunks.len();
        let mut k: usize = 0;
        while k < n
            invariant
                n == self.chunks@.len(),
                k <= n,
                tb@ == type_text.spec_bytes(),
                forall|j: int| 0 <= j < k ==> !matches_type(#[trigger] self.chunks@[j], tb@),
            decreases n - k,
        {
            let c = &self.chunks[k];
            if tb.len() == 4 && tb[0] == c.chunk_type.bytes[0] && tb[1] == c.chunk_type.bytes[1]
                && tb[2] == c.chunk_type.bytes[2] && tb[3] == c.chunk_type.bytes[3] {
                assert(c.chunk_type.bytes@ =~= tb@);
                proof {
                    lemma_first_match_is(self.chunks@, tb@, k as int);
                }
                return Some(c);
            }
            proof {
                if matches_type(self.chunks@[k as int], tb@) {
                    assert(tb@.len() == 4);
                    assert(false);
                }
            }
            k += 1;
        }
        proof {
            lemma_first_match_none(self.chunks@, tb@);
        }
        None
    }

    /// Removes and returns the first chunk whose type code matches the
    /// given text; the sequence is unchanged when none matches.
    pub fn remove_first_chunk(&mut self, type_text: &str) -> (r: Result<Chunk, PngError>)
        ensures
            match r {
                Ok(c) => {
                    &&& first_match(old(self).chunks@, type_text.spec_bytes()) >= 0
                    &&& c == old(self).chunks@[first_match(
                        old(self).chunks@,
                        type_text.spec_bytes(),
                    )]
                    &&& final(self).chunks@ == old(self).chunks@.remove(
                        first_match(old(self).chunks@, type_text.spec_bytes()),
                    )
                },
                Err(e) => {
                    &&& first_match(old(self).chunks@, type_text.spec_bytes()) == -1
                    &&& final(self).chunks@ == old(self).chunks@
                    &&& e matches PngError::ChunkNotFound(s) && s@ == type_text@
                },
            },
    {
        let tb = type_text.as_bytes();
        let n = self.chunks.len();
        let mut k: usize = 0;
        while k < n
            invariant
                n == self.chunks@.len(),
                k <= n,
                self.chunks@ == old(self).chunks@,
                tb@ == type_text.spec_bytes(),
                forall|j: int| 0 <= j < k ==> !matches_type(#[trigger] self.chunks@[j], tb@),
            decreases n - k,
        {
            let hit = {
                let c = &self.chunks[k];
                tb.len() == 4 && tb[0] == c.chunk_type.bytes[0] && tb[1] == c.chunk_type.bytes[1]
                    && tb[2] == c.chunk_type.bytes[2] && tb[3] == c.chunk_type.bytes[3]
            };
            if hit {
                assert(self.chunks@[k as int].chunk_type.bytes@ =~= tb@);
                proof {
                    lemma_first_match_is(self.chunks@, tb@, k as int);
                }
                let c = self.chunks.remove(k);
                return Ok(c);
            }
            proof {
                if matches_type(self.chunks@[k as int], tb@) {
                    assert(tb@.len() == 4);
                    assert(false);
                }
            }
            k += 1;
        }
        proof {
            lemma_first_match_none(self.chunks@, tb@);
        }
        Err(PngError::ChunkNotFound(type_text.to_owned()))
    }

    /// The container's exact byte encoding: the signature, then every
    /// chunk's bytes in sequence order.
    pub fn as_bytes(&self) -> (r: Vec<u8>)
        ensures
            r@ == png_sig() + chunks_bytes(self.chunks@),
    {
        let mut out: Vec<u8> = Vec::new();
        out.push(137);
        out.push(80);
        out.push(78);
        out.push(71);
        out.push(13);
        out.push(10);
        out.push(26);
        out.push(10);
        assert(out@ =~= png_sig() + chunks_bytes(self.chunks@.take(0)));
        let n = self.chunks.len();
        let mut k: usize = 0;
        while k < n
            invariant
                n == self.chunks@.len(),
                k <= n,
                out@ == png_sig() + chunks_bytes(self.chunks@.take(k as int)),
            decreases n - k,
        {
            let mut cb = self.chunks[k].as_bytes();
            out.append(&mut cb);
            proof {
                assert(self.chunks@.take(k as int).push(self.chunks@[k as int]) =~= self.chunks@
                    .take(k as int + 1));
                lemma_chunks_bytes_push(self.chunks@.take(k as int), self.chunks@[k as int]);
            }
            k += 1;
        }
        assert(self.chunks@.take(n as int) =~= self.chunks@);
        out
    }

    /// The container listed as text, one chunk per line in sequence order.
    pub fn render_text(&self) -> (r: String)
        ensures
            r@ == spec_png_render(self.chunks@),
    {
        let mut s = String::new();
        let n = self.chunks.len();
        let mut k: usize = 0;
        while k < n
            invariant
                n == self.chunks@.len(),
                k <= n,
                s@ == spec_png_render(self.chunks@.take(k as int)),
            decreases n - k,
        {
            let line = self.chunks[k].render_text();
            s.append(line.as_str());
            crate::text::push_char(&mut s, '\n');
            proof {
                assert(self.chunks@.take(k as int).push(self.chunks@[k as int]) =~= self.chunks@
                    .take(k as int + 1));
                lemma_png_render_push(self.chunks@.take(k as int), self.chunks@[k as int]);
                assert(s@.push('\n') =~= s@ + seq!['\n']);
            }
            k += 1;
        }
        assert(self.chunks@.take(n as int) =~= self.chunks@);
        s
    }
}

/// The text listing of a chunk sequence: each chunk's listing, one per
/// line, in order.
pub open spec fn spec_png_render(cs: Seq<Chunk>) -> Seq<char>
    decreases cs.len(),
{
    if cs.len() == 0 {
        Seq::empty()
    } else {
        spec_render(cs[0]) + seq!['\n'] + spec_png_render(cs.drop_first())
    }
}

proof fn lemma_png_render_push(cs: Seq<Chunk>, c: Chunk)
    ensures
        spec_png_render(cs.push(c)) == spec_png_render(cs) + spec_render(c) + seq!['\n'],
    decreases cs.len(),
{
    if cs.len() == 0 {
        assert(cs.push(c)[0] == c);
        assert(cs.push(c).drop_first() =~= Seq::<Chunk>::empty());
        assert(spec_png_render(cs.push(c)) == spec_render(c) + seq!['\n'] + spec_png_render(
            Seq::<Chunk>::empty(),
        ));
        assert(spec_png_render(cs.push(c)) =~= spec_png_render(cs) + spec_render(c) + seq!['\n']);
    } else {
        assert(cs.push(c)[0] == cs[0]);
        assert(cs.push(c).drop_first() =~= cs.drop_first().push(c));
        lemma_png_render_push(cs.drop_first(), c);
        assert(spec_png_render(cs.push(c)) == spec_render(cs[0]) + seq!['\n'] + (spec_png_render(
            cs.drop_first(),
        ) + spec_render(c) + seq!['\n']));
        assert(spec_png_render(cs.push(c)) =~= spec_png_render(cs) + spec_render(c) + seq!['\n']);
    }
}

/// Two chunks carrying the same type code, data, length and checksum.
pub open spec fn chunk_eq(x: Chunk, y: Chunk) -> bool {
    &&& x.chunk_type.bytes@ == y.chunk_type.bytes@
    &&& x.data@ == y.data@
    &&& x.length == y.length
    &&& x.crc == y.crc
}

/// Two chunk sequences equal record for record, in order.
pub open spec fn chunks_eq(a: Seq<Chunk>, b: Seq<Chunk>) -> bool {
    &&& a.len() == b.len()
    &&& forall|i: int| 0 <= i < a.len() ==> chunk_eq(#[trigger] a[i], #[trigger] b[i])
}

/// One well-formed chunk at the head of a stream is sliced off exactly
/// and parses successfully.
#[verifier::rlimit(50)]
proof fn lemma_stream_check_step(c: Chunk, rest: Seq<u8>)
    requires
        chunk_wf(c),
    ensures
        (spec_chunk_bytes(c) + rest).len() >= 12,
        take_len(spec_chunk_bytes(c) + rest) == spec_chunk_bytes(c).len(),
        chunk_parse_spec((spec_chunk_bytes(c) + rest).subrange(0, spec_chunk_bytes(c).len() as int))
            is Ok,
        (spec_chunk_bytes(c) + rest).skip(spec_chunk_bytes(c).len() as int) == rest,
{
    let cb = spec_chunk_bytes(c);
    let b = cb + rest;
    assert(cb.len() == 12 + c.data@.len());
    assert(b.subrange(0, 4) == u32_be(c.length)) by {
        assert(b.subrange(0, 4) =~= u32_be(c.length));
    }
    assert(be_u32(b.subrange(0, 4)) == c.length) by {
        crate::wire::lemma_u32_be_round_trip(c.length);
    }
    assert(take_len(b) == cb.len());
    assert(b.subrange(0, cb.len() as int) == cb) by {
        assert(b.subrange(0, cb.len() as int) =~= cb);
    }
    assert(chunk_parse_spec(cb) is Ok) by {
        crate::chunk::lemma_chunk_round_trip(c);
    }
    assert(b.skip(cb.len() as int) == rest) by {
        assert(b.skip(cb.len() as int) =~= rest);
    }
}

/// A serialized well-formed chunk sequence passes the stream check.
#[verifier::rlimit(50)]
pub proof fn lemma_stream_check_serialized(cs: Seq<Chunk>)
    requires
        chunks_wf(cs),
    ensures
        stream_check(chunks_bytes(cs)) is Ok,
    decreases cs.len(),
{
    if cs.len() > 0 {
        let c = cs[0];
        assert(chunk_wf(c));
        let tailb = chunks_bytes(cs.drop_first());
        assert(chunks_bytes(cs) == spec_chunk_bytes(c) + tailb);
        lemma_stream_check_step(c, tailb);
        assert(chunks_wf(cs.drop_first())) by {
            assert(forall|j: int|
                0 <= j < cs.drop_first().len() ==> cs.drop_first()[j] == cs[j + 1]);
        }
        lemma_stream_check_serialized(cs.drop_first());
    }
}

/// The byte encoding determines the chunk sequence: two well-formed
/// sequences with the same bytes are the same sequence of records.
#[verifier::rlimit(50)]
pub proof fn lemma_chunks_bytes_injective(a: Seq<Chunk>, b: Seq<Chunk>)
    requires
        chunks_wf(a),
        chunks_wf(b),
        chunks_bytes(a) == chunks_bytes(b),
    ensures
        chunks_eq(a, b),
    decreases a.len(),
{
    if a.len() == 0 {
        if b.len() > 0 {
            assert(chunks_bytes(b).len() >= 12);
        }
    } else if b.len() == 0 {
        assert(chunks_bytes(a).len() >= 12);
    } else {
        let x = a[0];
        let y = b[0];
        assert(chunk_wf(x));
        assert(chunk_wf(y));
        let xb = spec_chunk_bytes(x);
        let yb = spec_chunk_bytes(y);
        let s = chunks_bytes(a);
        assert(s == xb + chunks_bytes(a.drop_first()));
        assert(s == yb + chunks_bytes(b.drop_first()));
        assert(xb.len() == 12 + x.data@.len());
        assert(yb.len() == 12 + y.data@.len());
        assert(u32_be(x.length) =~= s.subrange(0, 4));
        assert(u32_be(y.length) =~= s.subrange(0, 4));
        crate::wire::lemma_u32_be_round_trip(x.length);
        crate::wire::lemma_u32_be_round_trip(y.length);
        assert(x.length == y.length);
        assert(xb.len() == yb.len());
        assert(xb =~= s.subrange(0, xb.len() as int));
        assert(yb =~= s.subrange(0, xb.len() as int));
        assert(x.chunk_type.bytes@ =~= xb.subrange(4, 8));
        assert(y.chunk_type.bytes@ =~= yb.subrange(4, 8));
        assert(x.data@ =~= xb.subrange(8, xb.len() - 4));
        assert(y.data@ =~= yb.subrange(8, yb.len() - 4));
        assert(u32_be(x.crc) =~= xb.subrange(xb.len() - 4, xb.len() as int));
        assert(u32_be(y.crc) =~= yb.subrange(yb.len() - 4, yb.len() as int));
        crate::wire::lemma_u32_be_round_trip(x.crc);
        crate::wire::lemma_u32_be_round_trip(y.crc);
        assert(chunk_eq(x, y));
        assert(chunks_bytes(a.drop_first()) =~= s.skip(xb.len() as int));
        assert(chunks_bytes(b.drop_first()) =~= s.skip(xb.len() as int));
        assert(chunks_wf(a.drop_first())) by {
            assert(forall|j: int| 0 <= j < a.drop_first().len() ==> a.drop_first()[j] == a[j + 1]);
        }
        assert(chunks_wf(b.drop_first())) by {
            assert(forall|j: int| 0 <= j < b.drop_first().len() ==> b.drop_first()[j] == b[j + 1]);
        }
        lemma_chunks_bytes_injective(a.drop_first(), b.drop_first());
        assert(forall|i: int| 1 <= i < a.len() ==> a.drop_first()[i - 1] == #[trigger] a[i]);
        assert(forall|i: int| 1 <= i < b.len() ==> b.drop_first()[i - 1] == #[trigger] b[i]);
    }
}

/// Round trip: serializing a container with well-formed chunks and
/// parsing the result succeeds, and any container the parse may return
/// holds the same records in the same order.
pub proof fn lemma_png_round_trip(p: Png, q: Png, b: Seq<u8>)
    requires
        chunks_wf(p.chunks@),
        b == png_sig() + chunks_bytes(p.chunks@),
        chunks_wf(q.chunks@),
        chunks_bytes(q.chunks@) == b.skip(8),
    ensures
        b.len() >= 8,
        b.subrange(0, 8) == png_sig(),
        stream_check(b.skip(8)) is Ok,
        chunks_eq(q.chunks@, p.chunks@),
{
    assert(b.subrange(0, 8) =~= png_sig());
    assert(b.skip(8) =~= chunks_bytes(p.chunks@));
    lemma_stream_check_serialized(p.chunks@);
    lemma_chunks_bytes_injective(q.chunks@, p.chunks@);
}

} // verus!
