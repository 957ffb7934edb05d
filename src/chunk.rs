use crate::checksum::{crc32, crc32_of};
use crate::chunk_type::{type_text, ChunkType};
use crate::error::PngError;
use crate::text::{decimal, u32_decimal, utf8_string};
use vstd::prelude::*;
use vstd::utf8::{decode_utf8, valid_utf8};

verus! {

/// The four big-endian bytes of a `u32`.
pub open spec fn be_bytes(x: u32) -> Seq<u8> {
    seq![(x / 0x1000000) as u8, ((x / 0x10000) % 256) as u8, ((x / 256) % 256) as u8, (x % 256) as u8]
}

/// The `u32` whose big-endian bytes open `s`.
pub open spec fn be_value(s: Seq<u8>) -> u32 {
    (s[0] * 0x1000000 + s[1] * 0x10000 + s[2] * 256 + s[3]) as u32
}

pub proof fn lemma_be_round_trip(x: u32)
    ensures
        be_value(be_bytes(x)) == x,
        be_bytes(x).len() == 4,
{
    assert(x == (x / 0x1000000) * 0x1000000 + ((x / 0x10000) % 256) * 0x10000 + ((x / 256) % 256)
        * 256 + x % 256) by (nonlinear_arith);
}

/// A chunk as a mathematical value.
pub ghost struct ChunkView {
    pub length: u32,
    pub chunk_type: Seq<u8>,
    pub data: Seq<u8>,
    pub crc: u32,
}

impl ChunkView {
    /// The length field counts the data, and the checksum covers type and data.
    pub open spec fn wf(self) -> bool {
        &&& self.chunk_type.len() == 4
        &&& self.length as int == self.data.len()
        &&& self.crc == crc32_of(self.chunk_type + self.data)
    }

    /// Bytes that the chunk takes on the wire.
    pub open spec fn size(self) -> int {
        12 + self.length
    }
}

/// The chunk made of a type and its data.
pub open spec fn new_chunk(chunk_type: Seq<u8>, data: Seq<u8>) -> ChunkView {
    ChunkView {
        length: data.len() as u32,
        chunk_type,
        data,
        crc: crc32_of(chunk_type + data),
    }
}

/// The wire form: length, type, data, checksum.
pub open spec fn encode_chunk(c: ChunkView) -> Seq<u8> {
    be_bytes(c.length) + c.chunk_type + c.data + be_bytes(c.crc)
}

/// Reads one chunk from the front of `b`; bytes after it are left alone.
#[verifier::opaque]
pub open spec fn parse_chunk(b: Seq<u8>) -> Result<ChunkView, PngError> {
    if b.len() < 12 {
        Err(PngError::Truncated)
    } else {
        let len = be_value(b.subrange(0, 4));
        if b.len() < 12 + len {
            Err(PngError::Truncated)
        } else {
            let stored = be_value(b.subrange(8 + len, 12 + len));
            if crc32_of(b.subrange(4, 8 + len)) == stored {
                Ok(
                    ChunkView {
                        length: len,
                        chunk_type: b.subrange(4, 8),
                        data: b.subrange(8, 8 + len),
                        crc: stored,
                    },
                )
            } else {
                Err(PngError::CrcMismatch)
            }
        }
    }
}

/// A well-formed chunk reads back from its wire form, whatever follows it.
pub proof fn lemma_parse_encoded(c: ChunkView, rest: Seq<u8>)
    requires
        c.wf(),
    ensures
        parse_chunk(encode_chunk(c) + rest) == Ok::<ChunkView, PngError>(c),
{
    reveal(parse_chunk);
    let b = encode_chunk(c) + rest;
    let len = c.length as int;
    lemma_be_round_trip(c.length);
    lemma_be_round_trip(c.crc);
    assert(b.subrange(0, 4) =~= be_bytes(c.length));
    assert(b.subrange(4, 8) =~= c.chunk_type);
    assert(b.subrange(8, 8 + len) =~= c.data);
    assert(b.subrange(4, 8 + len) =~= c.chunk_type + c.data);
    assert(b.subrange(8 + len, 12 + len) =~= be_bytes(c.crc));
}

/// A chunk made from a type and data reads back from its wire form as the
/// same chunk.
pub proof fn lemma_chunk_round_trip(chunk_type: ChunkType, data: Seq<u8>)
    requires
        data.len() <= u32::MAX,
    ensures
        parse_chunk(encode_chunk(new_chunk(chunk_type@, data))) == Ok::<ChunkView, PngError>(
            new_chunk(chunk_type@, data),
        ),
{
    chunk_type.lemma_view();
    let c = new_chunk(chunk_type@, data);
    lemma_parse_encoded(c, Seq::empty());
    assert(encode_chunk(c) + Seq::<u8>::empty() =~= encode_chunk(c));
}

/// Changing one byte of the type or data of a chunk's wire form makes the
/// reading fail with `CrcMismatch` exactly when the checksum of the changed
/// type and data differs from the stored one; otherwise the changed chunk is
/// read, with the stored checksum.
pub proof fn lemma_corruption_checked(c: ChunkView, i: int, v: u8)
    requires
        c.wf(),
        4 <= i < 8 + c.length,
        v != encode_chunk(c)[i],
    ensures
        ({
            let altered = encode_chunk(c).update(i, v);
            let covered = altered.subrange(4, 8 + c.length);
            &&& covered != c.chunk_type + c.data
            &&& (parse_chunk(altered) == Err::<ChunkView, PngError>(PngError::CrcMismatch))
                == (crc32_of(covered) != crc32_of(c.chunk_type + c.data))
            &&& parse_chunk(altered) is Ok ==> parse_chunk(altered) == Ok::<ChunkView, PngError>(
                ChunkView {
                    length: c.length,
                    chunk_type: covered.subrange(0, 4),
                    data: covered.subrange(4, covered.len() as int),
                    crc: c.crc,
                },
            )
        }),
{
    reveal(parse_chunk);
    let e = encode_chunk(c);
    let altered = e.update(i, v);
    let len = c.length as int;
    lemma_be_round_trip(c.length);
    lemma_be_round_trip(c.crc);
    assert(altered.subrange(0, 4) =~= be_bytes(c.length));
    assert(altered.subrange(8 + len, 12 + len) =~= be_bytes(c.crc));
    let covered = altered.subrange(4, 8 + len);
    assert(e.subrange(4, 8 + len) =~= c.chunk_type + c.data);
    assert(covered[i - 4] == v);
    assert(altered.subrange(4, 8) =~= covered.subrange(0, 4));
    assert(altered.subrange(8, 8 + len) =~= covered.subrange(4, covered.len() as int));
}

/// The text rendering of a chunk.
pub open spec fn chunk_text(c: ChunkView) -> Seq<char> {
    "Chunk {\n  Length: "@ + decimal(c.length as nat) + "\n  Type: "@ + type_text(c.chunk_type)
        + "\n  Data: "@ + data_text(c.data) + "\n  Crc: "@ + decimal(c.crc as nat) + "\n}\n"@
}

/// Data shown as text where it is UTF-8.
pub open spec fn data_text(d: Seq<u8>) -> Seq<char> {
    if valid_utf8(d) {
        decode_utf8(d)
    } else {
        "<not UTF-8>"@
    }
}

/// One length-type-data-checksum record of a PNG file.
#[derive(Debug, PartialEq, Eq)]
pub struct Chunk {
    data_length: u32,
    chunk_type: ChunkType,
    data: Vec<u8>,
    crc: u32,
}

impl View for Chunk {
    type V = ChunkView;

    closed spec fn view(&self) -> ChunkView {
        ChunkView {
            length: self.data_length,
            chunk_type: self.chunk_type@,
            data: self.data@,
            crc: self.crc,
        }
    }
}

fn read_be(bytes: &[u8], at: usize) -> (r: u32)
    requires
        at + 4 <= bytes@.len(),
    ensures
        r == be_value(bytes@.subrange(at as int, at + 4)),
{
    let v: u64 = (bytes[at] as u64) * 0x1000000 + (bytes[at + 1] as u64) * 0x10000
        + (bytes[at + 2] as u64) * 256 + (bytes[at + 3] as u64);
    v as u32
}

fn push_be(out: &mut Vec<u8>, x: u32)
    ensures
        final(out)@ == old(out)@ + be_bytes(x),
{
    out.push((x / 0x1000000) as u8);
    out.push(((x / 0x10000) % 256) as u8);
    out.push(((x / 256) % 256) as u8);
    out.push((x % 256) as u8);
    assert(final(out)@ =~= old(out)@ + be_bytes(x));
}

impl Chunk {
    #[verifier::type_invariant]
    spec fn inv(self) -> bool {
        self@.wf()
    }

    /// A chunk of the given type holding `data`, with its length and checksum.
    pub fn new(chunk_type: ChunkType, data: Vec<u8>) -> (r: Chunk)
        requires
            data@.len() <= u32::MAX,
        ensures
            r@ == new_chunk(chunk_type@, data@),
    {
        proof {
            chunk_type.lemma_view();
        }
        let tb = chunk_type.bytes();
        let mut covered: Vec<u8> = Vec::new();
        covered.push(tb[0]);
        covered.push(tb[1]);
        covered.push(tb[2]);
        covered.push(tb[3]);
        let mut i: usize = 0;
        while i < data.len()
            invariant
                i <= data@.len(),
                covered@ == chunk_type@ + data@.subrange(0, i as int),
            decreases data@.len() - i,
        {
            covered.push(data[i]);
            i += 1;
            assert(covered@ =~= chunk_type@ + data@.subrange(0, i as int));
        }
        assert(data@.subrange(0, data@.len() as int) =~= data@);
        let crc = crc32(covered.as_slice());
        Chunk { data_length: data.len() as u32, chunk_type, data, crc }
    }

    /// The number of data bytes.
    pub fn length(&self) -> (r: u32)
        ensures
            r == self@.length,
    {
        self.data_length
    }

    pub fn chunk_type(&self) -> (r: &ChunkType)
        ensures
            r@ == self@.chunk_type,
    {
        &self.chunk_type
    }

    pub fn data(&self) -> (r: &[u8])
        ensures
            r@ == self@.data,
    {
        self.data.as_slice()
    }

    pub fn crc(&self) -> (r: u32)
        ensures
            r == self@.crc,
    {
        self.crc
    }

    /// The data decoded as UTF-8 text.
    pub fn data_as_string(&self) -> (r: Result<String, PngError>)
        ensures
            match r {
                Ok(s) => valid_utf8(self@.data) && s@ == decode_utf8(self@.data),
                Err(e) => e == PngError::InvalidUtf8 && !valid_utf8(self@.data),
            },
    {
        match utf8_string(self.data.clone()) {
            Some(s) => Ok(s),
            None => Err(PngError::InvalidUtf8),
        }
    }

    /// The wire form of the chunk.
    pub fn as_bytes(&self) -> (r: Vec<u8>)
        ensures
            r@ == encode_chunk(self@),
    {
        let mut out: Vec<u8> = Vec::new();
        self.write_to(&mut out);
        assert(out@ =~= encode_chunk(self@));
        out
    }

    /// Appends the wire form of the chunk to `out`.
    pub fn write_to(&self, out: &mut Vec<u8>)
        ensures
            final(out)@ == old(out)@ + encode_chunk(self@),
            self@.wf(),
    {
        proof {
            use_type_invariant(self);
        }
        let ghost start = out@;
        push_be(out, self.data_length);
        let tb = self.chunk_type.bytes();
        out.push(tb[0]);
        out.push(tb[1]);
        out.push(tb[2]);
        out.push(tb[3]);
        proof {
            self.chunk_type.lemma_view();
        }
        assert(out@ =~= start + be_bytes(self@.length) + self@.chunk_type);
        let ghost mid = out@;
        let mut i: usize = 0;
        while i < self.data.len()
            invariant
                i <= self.data@.len(),
                out@ == mid + self.data@.subrange(0, i as int),
            decreases self.data@.len() - i,
        {
            out.push(self.data[i]);
            i += 1;
            assert(out@ =~= mid + self.data@.subrange(0, i as int));
        }
        assert(self.data@.subrange(0, self.data@.len() as int) =~= self.data@);
        push_be(out, self.crc);
        assert(out@ =~= start + encode_chunk(self@));
    }

    /// Reads a chunk from the front of `bytes`, checking its checksum.
    pub fn try_from(bytes: &[u8]) -> (r: Result<Chunk, PngError>)
        ensures
            match r {
                Ok(c) => parse_chunk(bytes@) == Ok::<ChunkView, PngError>(c@),
                Err(e) => parse_chunk(bytes@) == Err::<ChunkView, PngError>(e),
            },
    {
        assert(bytes@.skip(0) =~= bytes@);
        Self::parse_at(bytes, 0)
    }

    /// Reads a chunk from `bytes` starting at `start`.
    pub fn parse_at(bytes: &[u8], start: usize) -> (r: Result<Chunk, PngError>)
        requires
            start <= bytes@.len(),
        ensures
            match r {
                Ok(c) => parse_chunk(bytes@.skip(start as int)) == Ok::<ChunkView, PngError>(c@),
                Err(e) => parse_chunk(bytes@.skip(start as int)) == Err::<ChunkView, PngError>(e),
            },
    {
        proof {
            reveal(parse_chunk);
        }
        let ghost b = bytes@.skip(start as int);
        let avail = bytes.len() - start;
        if avail < 12 {
            return Err(PngError::Truncated);
        }
        let len = read_be(bytes, start);
        assert(bytes@.subrange(start as int, start + 4) =~= b.subrange(0, 4));
        if avail - 12 < len as usize {
            return Err(PngError::Truncated);
        }
        let data_end = start + 8 + len as usize;
        let stored = read_be(bytes, data_end);
        assert(bytes@.subrange(data_end as int, data_end + 4) =~= b.subrange(8 + len, 12 + len));
        let chunk_type = ChunkType::from_bytes(
            [bytes[start + 4], bytes[start + 5], bytes[start + 6], bytes[start + 7]],
        );
        let mut covered: Vec<u8> = Vec::new();
        let mut data: Vec<u8> = Vec::new();
        covered.push(bytes[start + 4]);
        covered.push(bytes[start + 5]);
        covered.push(bytes[start + 6]);
        covered.push(bytes[start + 7]);
        assert(covered@ =~= b.subrange(4, 8));
        assert(chunk_type@ =~= b.subrange(4, 8));
        let mut i: usize = start + 8;
        while i < data_end
            invariant
                start + 8 <= i <= data_end,
                data_end + 4 <= bytes@.len(),
                b == bytes@.skip(start as int),
                covered@ == b.subrange(4, i - start),
                data@ == b.subrange(8, i - start),
            decreases data_end - i,
        {
            covered.push(bytes[i]);
            data.push(bytes[i]);
            i += 1;
            assert(covered@ =~= b.subrange(4, i - start));
            assert(data@ =~= b.subrange(8, i - start));
        }
        let computed = crc32(covered.as_slice());
        assert(i - start == 8 + len);
        assert(chunk_type@ + data@ =~= covered@);
        if computed == stored {
            Ok(Chunk { data_length: len, chunk_type, data, crc: stored })
        } else {
            Err(PngError::CrcMismatch)
        }
    }

    /// A human-readable rendering of the chunk, over several lines.
    pub fn to_string(&self) -> (r: String)
        ensures
            r@ == chunk_text(self@),
    {
        let mut s = String::from_str("Chunk {\n  Length: ");
        s.append(u32_decimal(self.data_length).as_str());
        s.append("\n  Type: ");
        s.append(self.chunk_type.to_string().as_str());
        s.append("\n  Data: ");
        match utf8_string(self.data.clone()) {
            Some(t) => s.append(t.as_str()),
            None => s.append("<not UTF-8>"),
        }
        s.append("\n  Crc: ");
        s.append(u32_decimal(self.crc).as_str());
        s.append("\n}\n");
        s
    }
}

} // verus!
