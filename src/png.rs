use crate::chunk::{
    chunk_text, encode_chunk, lemma_parse_encoded, parse_chunk, Chunk, ChunkView,
};
use crate::error::PngError;
use vstd::prelude::*;
use vstd::string::StringSliceAdditionalSpecFns;

verus! {

/// The eight bytes that open every PNG file.
pub open spec fn signature() -> Seq<u8> {
    seq![137u8, 80u8, 78u8, 71u8, 13u8, 10u8, 26u8, 10u8]
}

/// The wire forms of the chunks, one after the other.
pub open spec fn encode_chunks(cs: Seq<ChunkView>) -> Seq<u8>
    decreases cs.len(),
{
    if cs.len() == 0 {
        Seq::empty()
    } else {
        encode_chunk(cs[0]) + encode_chunks(cs.skip(1))
    }
}

/// A whole file: the signature, then the chunks.
pub open spec fn encode_png(cs: Seq<ChunkView>) -> Seq<u8> {
    signature() + encode_chunks(cs)
}

/// Reads chunks one after another until the bytes run out.
pub open spec fn parse_chunks(b: Seq<u8>) -> Result<Seq<ChunkView>, PngError>
    decreases b.len(),
{
    if b.len() == 0 {
        Ok(Seq::empty())
    } else {
        match parse_chunk(b) {
            Err(e) => Err(e),
            Ok(c) => if 0 < c.size() <= b.len() {
                match parse_chunks(b.skip(c.size())) {
                    Ok(rest) => Ok(seq![c] + rest),
                    Err(e) => Err(e),
                }
            } else {
                Err(PngError::Truncated)
            },
        }
    }
}

/// Reads a whole file: the signature, then its chunks.
pub open spec fn parse_png(b: Seq<u8>) -> Result<Seq<ChunkView>, PngError> {
    if b.len() < 8 || b.subrange(0, 8) != signature() {
        Err(PngError::InvalidSignature)
    } else {
        parse_chunks(b.skip(8))
    }
}

/// `i` is the first position in `cs` of a chunk whose type bytes are `t`.
pub open spec fn is_first_of_type(cs: Seq<ChunkView>, t: Seq<u8>, i: int) -> bool {
    &&& 0 <= i < cs.len()
    &&& cs[i].chunk_type == t
    &&& forall|j: int| 0 <= j < i ==> cs[j].chunk_type != t
}

/// No chunk in `cs` has type bytes `t`.
pub open spec fn has_no_type(cs: Seq<ChunkView>, t: Seq<u8>) -> bool {
    forall|i: int| 0 <= i < cs.len() ==> cs[i].chunk_type != t
}

/// The text rendering of a file: a header line, then each chunk.
pub open spec fn png_text(cs: Seq<ChunkView>) -> Seq<char>
    decreases cs.len(),
{
    if cs.len() == 0 {
        "PNG signature: 89 50 4E 47 0D 0A 1A 0A\n"@
    } else {
        png_text(cs.drop_last()) + chunk_text(cs.last())
    }
}

spec fn prepend(
    front: Seq<ChunkView>,
    r: Result<Seq<ChunkView>, PngError>,
) -> Result<Seq<ChunkView>, PngError> {
    match r {
        Ok(rest) => Ok(front + rest),
        Err(e) => Err(e),
    }
}

proof fn lemma_encode_chunks_push(cs: Seq<ChunkView>, c: ChunkView)
    ensures
        encode_chunks(cs.push(c)) == encode_chunks(cs) + encode_chunk(c),
    decreases cs.len(),
{
    if cs.len() == 0 {
        assert(cs.push(c).skip(1) =~= Seq::<ChunkView>::empty());
        assert(encode_chunks(Seq::<ChunkView>::empty()) == Seq::<u8>::empty());
        assert(encode_chunks(cs) == Seq::<u8>::empty());
        assert(encode_chunks(cs.push(c)) =~= encode_chunk(c));
    } else {
        assert(cs.push(c).skip(1) =~= cs.skip(1).push(c));
        lemma_encode_chunks_push(cs.skip(1), c);
        assert(encode_chunks(cs.push(c)) =~= encode_chunks(cs) + encode_chunk(c));
    }
}

/// Well-formed chunks read back from their concatenated wire forms.
pub proof fn lemma_chunks_round_trip(cs: Seq<ChunkView>)
    requires
        forall|i: int| 0 <= i < cs.len() ==> (#[trigger] cs[i]).wf(),
    ensures
        parse_chunks(encode_chunks(cs)) == Ok::<Seq<ChunkView>, PngError>(cs),
    decreases cs.len(),
{
    if cs.len() > 0 {
        let c = cs[0];
        let tail = cs.skip(1);
        let rest = encode_chunks(tail);
        let b = encode_chunks(cs);
        assert(b == encode_chunk(c) + rest);
        assert(cs[0].wf());
        lemma_parse_encoded(c, rest);
        assert(encode_chunk(c).len() == c.size());
        assert(b.skip(c.size()) =~= rest);
        assert forall|i: int| 0 <= i < tail.len() implies (#[trigger] tail[i]).wf() by {
            assert(tail[i] == cs[i + 1]);
        }
        lemma_chunks_round_trip(tail);
        assert(seq![c] + tail =~= cs);
        assert(parse_chunks(b) == prepend(seq![c], parse_chunks(b.skip(c.size()))));
    } else {
        assert(cs =~= Seq::<ChunkView>::empty());
        assert(encode_chunks(cs) == Seq::<u8>::empty());
    }
}

/// A file built from well-formed chunks reads back as the same chunks, in
/// the same order.
pub proof fn lemma_png_round_trip(cs: Seq<ChunkView>)
    requires
        forall|i: int| 0 <= i < cs.len() ==> (#[trigger] cs[i]).wf(),
    ensures
        parse_png(encode_png(cs)) == Ok::<Seq<ChunkView>, PngError>(cs),
{
    let b = encode_png(cs);
    assert(b.subrange(0, 8) =~= signature());
    assert(b.skip(8) =~= encode_chunks(cs));
    lemma_chunks_round_trip(cs);
}

/// Bytes that do not open with the signature are refused with
/// `InvalidSignature`, whatever follows.
pub proof fn lemma_signature_gate(b: Seq<u8>)
    requires
        b.len() < 8 || b.subrange(0, 8) != signature(),
    ensures
        parse_png(b) == Err::<Seq<ChunkView>, PngError>(PngError::InvalidSignature),
{
}

/// Appending a chunk whose type does not occur yet, then removing the first
/// chunk of that type, removes the appended chunk and restores the sequence.
pub proof fn lemma_append_remove_inverse(cs: Seq<ChunkView>, c: ChunkView)
    requires
        has_no_type(cs, c.chunk_type),
    ensures
        is_first_of_type(cs.push(c), c.chunk_type, cs.len() as int),
        forall|i: int| is_first_of_type(cs.push(c), c.chunk_type, i) ==> i == cs.len(),
        cs.push(c)[cs.len() as int] == c,
        cs.push(c).remove(cs.len() as int) == cs,
{
    assert(cs.push(c).remove(cs.len() as int) =~= cs);
    assert forall|i: int| is_first_of_type(cs.push(c), c.chunk_type, i) implies i == cs.len() by {
        if i < cs.len() {
            assert(cs.push(c)[i] == cs[i]);
        }
    }
}

proof fn lemma_prepend_push(front: Seq<ChunkView>, c: ChunkView, r: Result<Seq<ChunkView>, PngError>)
    ensures
        prepend(front, prepend(seq![c], r)) == prepend(front.push(c), r),
{
    if let Ok(rest) = r {
        assert(front + (seq![c] + rest) =~= front.push(c) + rest);
    }
}

/// Whether a chunk type's bytes equal `t`.
fn type_is(c: &Chunk, t: &[u8]) -> (r: bool)
    ensures
        r == (c@.chunk_type == t@),
{
    let tb = c.chunk_type().bytes();
    if t.len() != 4 {
        assert(tb@.len() == 4);
        return false;
    }
    let r = tb[0] == t[0] && tb[1] == t[1] && tb[2] == t[2] && tb[3] == t[3];
    assert(r ==> tb@ =~= t@);
    r
}

/// An in-memory PNG file: its chunks in file order.
#[derive(Debug, PartialEq, Eq)]
pub struct Png {
    chunks: Vec<Chunk>,
}

impl View for Png {
    type V = Seq<ChunkView>;

    closed spec fn view(&self) -> Seq<ChunkView> {
        self.chunks@.map_values(|c: Chunk| c@)
    }
}

impl Png {
    /// A file holding the given chunks, in order.
    pub fn from_chunks(chunks: Vec<Chunk>) -> (r: Png)
        ensures
            r@ == chunks@.map_values(|c: Chunk| c@),
    {
        Png { chunks }
    }

    /// Reads a whole file: the signature, then chunks until the bytes run out.
    pub fn try_from(bytes: &[u8]) -> (r: Result<Png, PngError>)
        ensures
            match r {
                Ok(p) => parse_png(bytes@) == Ok::<Seq<ChunkView>, PngError>(p@),
                Err(e) => parse_png(bytes@) == Err::<Seq<ChunkView>, PngError>(e),
            },
    {
        if bytes.len() < 8 || bytes[0] != 137 || bytes[1] != 80 || bytes[2] != 78 || bytes[3]
            != 71 || bytes[4] != 13 || bytes[5] != 10 || bytes[6] != 26 || bytes[7] != 10 {
            proof {
                if bytes@.len() >= 8 && bytes@.subrange(0, 8) == signature() {
                    assert(bytes@[0] == bytes@.subrange(0, 8)[0]);
                    assert(bytes@[1] == bytes@.subrange(0, 8)[1]);
                    assert(bytes@[2] == bytes@.subrange(0, 8)[2]);
                    assert(bytes@[3] == bytes@.subrange(0, 8)[3]);
                    assert(bytes@[4] == bytes@.subrange(0, 8)[4]);
                    assert(bytes@[5] == bytes@.subrange(0, 8)[5]);
                    assert(bytes@[6] == bytes@.subrange(0, 8)[6]);
                    assert(bytes@[7] == bytes@.subrange(0, 8)[7]);
                }
            }
            return Err(PngError::InvalidSignature);
        }
        assert(bytes@.subrange(0, 8) =~= signature());
        let mut chunks: Vec<Chunk> = Vec::new();
        let mut pos: usize = 8;
        assert(bytes@.skip(8) =~= bytes@.skip(pos as int));
        assert(chunks@.map_values(|c: Chunk| c@) =~= Seq::<ChunkView>::empty());
        assert(Seq::<ChunkView>::empty() + Seq::<ChunkView>::empty() =~= Seq::<ChunkView>::empty());
        while pos < bytes.len()
            invariant
                8 <= pos <= bytes@.len(),
                parse_png(bytes@) == parse_chunks(bytes@.skip(8)),
                parse_chunks(bytes@.skip(8)) == prepend(
                    chunks@.map_values(|c: Chunk| c@),
                    parse_chunks(bytes@.skip(pos as int)),
                ),
            decreases bytes@.len() - pos,
        {
            let ghost rem = bytes@.skip(pos as int);
            let ghost front = chunks@.map_values(|c: Chunk| c@);
            match Chunk::parse_at(bytes, pos) {
                Err(e) => {
                    return Err(e);
                },
                Ok(c) => {
                    proof {
                        reveal(parse_chunk);
                    }
                    let size = 12 + c.length() as usize;
                    assert(rem.skip(size as int) =~= bytes@.skip(pos + size));
                    proof {
                        lemma_prepend_push(front, c@, parse_chunks(rem.skip(size as int)));
                    }
                    pos = pos + size;
                    chunks.push(c);
                    assert(chunks@.map_values(|c: Chunk| c@) =~= front.push(c@));
                },
            }
        }
        assert(bytes@.skip(pos as int) =~= Seq::<u8>::empty());
        let p = Png { chunks };
        assert(p@ + Seq::<ChunkView>::empty() =~= p@);
        Ok(p)
    }

    /// Adds a chunk at the end.
    pub fn append_chunk(&mut self, chunk: Chunk)
        ensures
            final(self)@ == old(self)@.push(chunk@),
    {
        self.chunks.push(chunk);
        assert(self@ =~= old(self)@.push(chunk@));
    }

    /// The position of the first chunk whose type bytes are `t`.
    pub fn position_of_type(&self, t: &[u8]) -> (r: Option<usize>)
        ensures
            match r {
                Some(i) => is_first_of_type(self@, t@, i as int),
                None => has_no_type(self@, t@),
            },
    {
        let mut i: usize = 0;
        while i < self.chunks.len()
            invariant
                i <= self@.len(),
                self@.len() == self.chunks@.len(),
                forall|j: int| 0 <= j < i ==> self@[j].chunk_type != t@,
            decreases self.chunks@.len() - i,
        {
            if type_is(&self.chunks[i], t) {
                return Some(i);
            }
            i += 1;
        }
        None
    }

    /// The chunk at position `i`.
    pub fn chunk_at(&self, i: usize) -> (r: &Chunk)
        requires
            i < self@.len(),
        ensures
            r@ == self@[i as int],
    {
        &self.chunks[i]
    }

    /// The first chunk whose type, as text, is `chunk_type`: the text's UTF-8
    /// bytes are the type's four bytes.
    pub fn chunk_by_type(&self, chunk_type: &str) -> (r: Option<&Chunk>)
        ensures
            match r {
                Some(c) => exists|i: int|
                    is_first_of_type(self@, chunk_type.spec_bytes(), i) && #[trigger] self@[i]
                        == c@,
                None => has_no_type(self@, chunk_type.spec_bytes()),
            },
    {
        match self.position_of_type(chunk_type.as_bytes()) {
            Some(i) => Some(&self.chunks[i]),
            None => None,
        }
    }

    /// Takes out the first chunk whose type bytes are `t`.
    pub fn remove_first_of_type(&mut self, t: &[u8]) -> (r: Result<Chunk, PngError>)
        ensures
            match r {
                Ok(c) => exists|i: int|
                    is_first_of_type(old(self)@, t@, i) && #[trigger] old(self)@[i] == c@
                        && final(self)@ == old(self)@.remove(i),
                Err(e) => e == PngError::ChunkNotFound && has_no_type(old(self)@, t@)
                    && final(self)@ == old(self)@,
            },
    {
        match self.position_of_type(t) {
            Some(i) => {
                let c = self.chunks.remove(i);
                assert(self@ =~= old(self)@.remove(i as int));
                Ok(c)
            },
            None => Err(PngError::ChunkNotFound),
        }
    }

    /// Takes out the first chunk whose type, as text, is `chunk_type` (compared
    /// by UTF-8 bytes); the others keep their order.
    pub fn remove_first_chunk(&mut self, chunk_type: &str) -> (r: Result<Chunk, PngError>)
        ensures
            match r {
                Ok(c) => exists|i: int|
                    is_first_of_type(old(self)@, chunk_type.spec_bytes(), i) && #[trigger] old(
                        self,
                    )@[i] == c@ && final(self)@ == old(self)@.remove(i),
                Err(e) => e == PngError::ChunkNotFound && has_no_type(
                    old(self)@,
                    chunk_type.spec_bytes(),
                ) && final(self)@ == old(self)@,
            },
    {
        self.remove_first_of_type(chunk_type.as_bytes())
    }

    /// The whole file: the signature, then each chunk's wire form.
    pub fn as_bytes(&self) -> (r: Vec<u8>)
        ensures
            r@ == encode_png(self@),
            forall|i: int| 0 <= i < self@.len() ==> (#[trigger] self@[i]).wf(),
    {
        let mut out: Vec<u8> = Vec::new();
        out.push(137);
        out.push(80);
        out.push(78);
        out.push(71);
        out.push(13);
        out.push(10);
        out.push(26);
        out.push(10);
        assert(out@ =~= signature() + encode_chunks(self@.take(0)));
        let mut i: usize = 0;
        while i < self.chunks.len()
            invariant
                i <= self@.len(),
                self@.len() == self.chunks@.len(),
                out@ == signature() + encode_chunks(self@.take(i as int)),
                forall|j: int| 0 <= j < i ==> (#[trigger] self@[j]).wf(),
            decreases self.chunks@.len() - i,
        {
            self.chunks[i].write_to(&mut out);
            proof {
                lemma_encode_chunks_push(self@.take(i as int), self@[i as int]);
                assert(self@.take(i as int).push(self@[i as int]) =~= self@.take(i + 1));
            }
            i += 1;
        }
        assert(self@.take(i as int) =~= self@);
        out
    }

    /// A human-readable rendering: a header line, then each chunk.
    pub fn to_string(&self) -> (r: String)
        ensures
            r@ == png_text(self@),
    {
        let mut s = String::from_str("PNG signature: 89 50 4E 47 0D 0A 1A 0A\n");
        assert(self@.take(0) =~= Seq::<ChunkView>::empty());
        let mut i: usize = 0;
        while i < self.chunks.len()
            invariant
                i <= self@.len(),
                self@.len() == self.chunks@.len(),
                s@ == png_text(self@.take(i as int)),
            decreases self.chunks@.len() - i,
        {
            s.append(self.chunks[i].to_string().as_str());
            assert(self@.take(i + 1).drop_last() =~= self@.take(i as int));
            i += 1;
        }
        assert(self@.take(i as int) =~= self@);
        s
    }
}

} // verus!
