use crate::error::PngError;
use crate::text::utf8_string;
use vstd::prelude::*;
use vstd::string::StringSliceAdditionalSpecFns;
use vstd::utf8::{decode_utf8, valid_utf8};

verus! {

/// An ASCII upper- or lower-case letter.
pub open spec fn is_alpha(b: u8) -> bool {
    (65 <= b <= 90) || (97 <= b <= 122)
}

/// Bit 5 (value 32) of a byte: clear for an upper-case letter.
pub open spec fn bit5(b: u8) -> bool {
    (b / 32) % 2 == 1
}

/// The four-byte type code of a chunk.
#[derive(Debug, Clone, Copy, PartialEq, Eq, Structural)]
pub struct ChunkType {
    b0: u8,
    b1: u8,
    b2: u8,
    b3: u8,
}

impl View for ChunkType {
    type V = Seq<u8>;

    closed spec fn view(&self) -> Seq<u8> {
        seq![self.b0, self.b1, self.b2, self.b3]
    }
}

/// What `to_string` renders for type bytes that are not UTF-8.
pub open spec fn unprintable_type() -> Seq<char> {
    seq!['?', '?', '?', '?']
}

/// The text of a chunk type: its bytes decoded as UTF-8, or four question
/// marks where they are not UTF-8.
pub open spec fn type_text(t: Seq<u8>) -> Seq<char> {
    if valid_utf8(t) {
        decode_utf8(t)
    } else {
        unprintable_type()
    }
}

impl ChunkType {
    /// A type code has four bytes.
    pub proof fn lemma_view(&self)
        ensures
            self@.len() == 4,
    {
    }

    /// Builds a type code from any four bytes; validity is a separate question.
    pub fn from_bytes(bytes: [u8; 4]) -> (r: ChunkType)
        ensures
            r@ == bytes@,
    {
        let r = ChunkType { b0: bytes[0], b1: bytes[1], b2: bytes[2], b3: bytes[3] };
        assert(r@ =~= bytes@);
        r
    }

    /// Parses four ASCII letters.
    pub fn from_string(s: &str) -> (r: Result<ChunkType, PngError>)
        ensures
            match r {
                Ok(t) => s.spec_bytes().len() == 4 && t@ == s.spec_bytes() && t.spec_is_valid(),
                Err(e) => e == PngError::InvalidFormat && !(s.spec_bytes().len() == 4
                    && forall|i: int| 0 <= i < 4 ==> is_alpha(#[trigger] s.spec_bytes()[i])),
            },
    {
        let b = s.as_bytes();
        if b.len() != 4 {
            return Err(PngError::InvalidFormat);
        }
        let t = ChunkType { b0: b[0], b1: b[1], b2: b[2], b3: b[3] };
        if t.is_valid() {
            assert(t@ =~= s.spec_bytes());
            Ok(t)
        } else {
            Err(PngError::InvalidFormat)
        }
    }

    /// The four raw bytes.
    pub fn bytes(&self) -> (r: [u8; 4])
        ensures
            r@ == self@,
    {
        let r = [self.b0, self.b1, self.b2, self.b3];
        assert(r@ =~= self@);
        r
    }

    pub open spec fn spec_is_valid(&self) -> bool {
        forall|i: int| 0 <= i < 4 ==> is_alpha(#[trigger] self@[i])
    }

    /// All four bytes are ASCII letters.
    pub fn is_valid(&self) -> (r: bool)
        ensures
            r == self.spec_is_valid(),
    {
        let r = is_alpha_byte(self.b0) && is_alpha_byte(self.b1) && is_alpha_byte(self.b2)
            && is_alpha_byte(self.b3);
        assert(self@[0] == self.b0 && self@[1] == self.b1 && self@[2] == self.b2 && self@[3]
            == self.b3);
        r
    }

    /// The type rendered as text.
    pub fn to_string(&self) -> (r: String)
        ensures
            r@ == type_text(self@),
    {
        let mut v: Vec<u8> = Vec::new();
        v.push(self.b0);
        v.push(self.b1);
        v.push(self.b2);
        v.push(self.b3);
        assert(v@ =~= self@);
        match utf8_string(v) {
            Some(s) => s,
            None => {
                proof {
                    reveal_strlit("????");
                }
                let r = String::from_str("????");
                assert(r@ =~= unprintable_type());
                r
            },
        }
    }

    /// The first byte is upper case: the chunk is critical.
    pub fn is_critical(&self) -> (r: bool)
        ensures
            r == !bit5(self@[0]),
    {
        !has_bit5(self.b0)
    }

    /// The second byte is upper case: the chunk type is public.
    pub fn is_public(&self) -> (r: bool)
        ensures
            r == !bit5(self@[1]),
    {
        !has_bit5(self.b1)
    }

    /// The third byte, the reserved one, is upper case.
    pub fn is_reserved_bit_valid(&self) -> (r: bool)
        ensures
            r == !bit5(self@[2]),
    {
        !has_bit5(self.b2)
    }

    /// The fourth byte is lower case: the chunk may be copied by editors
    /// that do not know it.
    pub fn is_safe_to_copy(&self) -> (r: bool)
        ensures
            r == bit5(self@[3]),
    {
        has_bit5(self.b3)
    }
}

fn is_alpha_byte(b: u8) -> (r: bool)
    ensures
        r == is_alpha(b),
{
    (65 <= b && b <= 90) || (97 <= b && b <= 122)
}

fn has_bit5(b: u8) -> (r: bool)
    ensures
        r == bit5(b),
{
    (b / 32) % 2 == 1
}

} // verus!
