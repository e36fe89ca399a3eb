use vstd::prelude::*;
use vstd::std_specs::convert::TryFromSpecImpl;
use vstd::string::*;
use vstd::utf8::{decode_utf8_encode_utf8, encode_utf8, encode_utf8_decode_utf8};
use crate::error::PngError;
use crate::text::{bytes_as_chars, decode_lossy, is_ascii_bytes, lemma_ascii_decodes_bytewise};

verus! {

/// `b` is one of `A`..=`Z`.
pub open spec fn is_upper(b: u8) -> bool {
    65 <= b <= 90
}

/// `b` is one of `a`..=`z`.
pub open spec fn is_lower(b: u8) -> bool {
    97 <= b <= 122
}

/// `b` is an ASCII letter of either case.
pub open spec fn is_letter(b: u8) -> bool {
    is_upper(b) || is_lower(b)
}

/// `s` is a well-formed type code: four bytes, each an ASCII letter.
pub open spec fn is_type_code(s: Seq<u8>) -> bool {
    &&& s.len() == 4
    &&& forall|i: int| 0 <= i < 4 ==> is_letter(#[trigger] s[i])
}

/// In a letter, case is one bit: the bit worth 32 is clear in upper case and
/// set in lower case. Each flag of a type code is that bit of one letter.
pub proof fn lemma_case_is_one_bit(b: u8)
    requires
        is_letter(b),
    ensures
        is_upper(b) <==> b & 32 == 0,
        is_lower(b) <==> b & 32 == 32,
        is_upper(b) != is_lower(b),
{
    assert((65 <= b <= 90) ==> b & 32 == 0) by (bit_vector);
    assert((97 <= b <= 122) ==> b & 32 == 32) by (bit_vector);
}

/// The text of a type code is `s` exactly when the code's bytes are the
/// UTF-8 bytes of `s`: comparing a code with a string by its bytes is
/// comparing it by its text.
pub proof fn lemma_code_text_matches(code: Seq<u8>, s: Seq<char>)
    requires
        is_type_code(code),
    ensures
        bytes_as_chars(code) == s <==> code == encode_utf8(s),
{
    assert(is_ascii_bytes(code)) by {
        assert forall|i: int| 0 <= i < code.len() implies #[trigger] code[i] < 128 by {
            assert(is_letter(code[i]));
        }
    }
    lemma_ascii_decodes_bytewise(code);
    if bytes_as_chars(code) == s {
        decode_utf8_encode_utf8(code);
    }
    if code == encode_utf8(s) {
        encode_utf8_decode_utf8(s);
    }
}

/// A four-letter PNG chunk type code. The case of each letter is a flag.
#[derive(Debug, Eq)]
pub struct ChunkType {
    bytes: [u8; 4],
}

impl View for ChunkType {
    type V = Seq<u8>;

    closed spec fn view(&self) -> Seq<u8> {
        self.bytes@
    }
}

impl PartialEq for ChunkType {
    /// Byte by byte; what it computes is stated as `eq_spec` below.
    fn eq(&self, other: &ChunkType) -> (r: bool) {
        let mut i: usize = 0;
        while i < 4
            invariant
                i <= 4,
                forall|j: int| 0 <= j < i ==> self.bytes@[j] == other.bytes@[j],
            decreases 4 - i,
        {
            if self.bytes[i] != other.bytes[i] {
                return false;
            }
            i += 1;
        }
        assert(self.bytes@ =~= other.bytes@);
        true
    }
}

impl vstd::std_specs::cmp::PartialEqSpecImpl for ChunkType {
    open spec fn obeys_eq_spec() -> bool {
        true
    }

    /// Two type codes are equal when their bytes are.
    open spec fn eq_spec(&self, other: &ChunkType) -> bool {
        self@ == other@
    }
}

impl Clone for ChunkType {
    /// A copy with the same four bytes.
    fn clone(&self) -> (r: Self)
        ensures
            r@ == self@,
    {
        proof {
            use_type_invariant(self);
        }
        ChunkType { bytes: self.bytes }
    }
}

impl TryFrom<[u8; 4]> for ChunkType {
    type Error = PngError;

    /// The same as the inherent `ChunkType::try_from`.
    fn try_from(value: [u8; 4]) -> (r: Result<ChunkType, PngError>)
        ensures
            is_type_code(value@) <==> r is Ok,
            r matches Ok(t) ==> t@ == value@,
            r matches Err(e) ==> e == PngError::InvalidTypeCode,
    {
        let r = ChunkType::try_from(value);
        proof {
            if r is Ok {
                assert(r->Ok_0.bytes =~= value);
            }
        }
        r
    }
}

impl TryFromSpecImpl<[u8; 4]> for ChunkType {
    open spec fn obeys_try_from_spec() -> bool {
        true
    }

    closed spec fn try_from_spec(v: [u8; 4]) -> Result<ChunkType, PngError> {
        if is_type_code(v@) {
            Ok(ChunkType { bytes: v })
        } else {
            Err(PngError::InvalidTypeCode)
        }
    }
}

impl std::str::FromStr for ChunkType {
    type Err = PngError;

    /// The same as the inherent `ChunkType::from_str`.
    fn from_str(s: &str) -> (r: Result<ChunkType, PngError>)
        ensures
            is_type_code(s.spec_bytes()) <==> r is Ok,
            r matches Ok(t) ==> t@ == s.spec_bytes(),
            r matches Err(e) ==> e == (if s.spec_bytes().len() != 4 {
                PngError::InvalidLength { actual: s.spec_bytes().len() as usize }
            } else {
                PngError::InvalidTypeCode
            }),
    {
        ChunkType::from_str(s)
    }
}

fn byte_is_upper(b: u8) -> (r: bool)
    ensures
        r == is_upper(b),
{
    b >= 65 && b <= 90
}

fn byte_is_lower(b: u8) -> (r: bool)
    ensures
        r == is_lower(b),
{
    b >= 97 && b <= 122
}

impl ChunkType {
    #[verifier::type_invariant]
    spec fn letters_only(self) -> bool {
        is_type_code(self.bytes@)
    }

    /// Accepts `value` as a type code exactly when all four bytes are ASCII
    /// letters; the bytes are kept as given, case included.
    pub fn try_from(value: [u8; 4]) -> (r: Result<ChunkType, PngError>)
        ensures
            is_type_code(value@) <==> r is Ok,
            r matches Ok(t) ==> t@ == value@,
            r matches Err(e) ==> e == PngError::InvalidTypeCode,
    {
        let mut i: usize = 0;
        while i < 4
            invariant
                i <= 4,
                forall|j: int| 0 <= j < i ==> is_letter(#[trigger] value@[j]),
            decreases 4 - i,
        {
            let b: u8 = value[i];
            if !byte_is_upper(b) && !byte_is_lower(b) {
                return Err(PngError::InvalidTypeCode);
            }
            i += 1;
        }
        Ok(ChunkType { bytes: value })
    }

    /// Reads a type code from text. The text must be four bytes long, and
    /// those bytes must all be ASCII letters.
    pub fn from_str(s: &str) -> (r: Result<ChunkType, PngError>)
        ensures
            is_type_code(s.spec_bytes()) <==> r is Ok,
            r matches Ok(t) ==> t@ == s.spec_bytes(),
            r matches Err(e) ==> e == (if s.spec_bytes().len() != 4 {
                PngError::InvalidLength { actual: s.spec_bytes().len() as usize }
            } else {
                PngError::InvalidTypeCode
            }),
    {
        let n: usize = s.len();
        if n != 4 {
            return Err(PngError::InvalidLength { actual: n });
        }
        let b = s.as_bytes();
        let value: [u8; 4] = [b[0], b[1], b[2], b[3]];
        assert(value@ =~= s.spec_bytes());
        ChunkType::try_from(value)
    }

    /// The four bytes of the code.
    pub fn bytes(&self) -> (r: [u8; 4])
        ensures
            r@ == self@,
            is_type_code(self@),
    {
        proof {
            use_type_invariant(self);
        }
        self.bytes
    }

    /// Critical chunks have an upper-case first letter.
    pub fn is_critical(&self) -> (r: bool)
        ensures
            r == is_upper(self@[0]),
    {
        byte_is_upper(self.bytes[0])
    }

    /// Public chunks have an upper-case second letter.
    pub fn is_public(&self) -> (r: bool)
        ensures
            r == is_upper(self@[1]),
    {
        byte_is_upper(self.bytes[1])
    }

    /// The reserved bit is valid when the third letter is upper case.
    pub fn is_reserved_bit_valid(&self) -> (r: bool)
        ensures
            r == is_upper(self@[2]),
    {
        byte_is_upper(self.bytes[2])
    }

    /// Chunks that are safe to copy have a lower-case fourth letter.
    pub fn is_safe_to_copy(&self) -> (r: bool)
        ensures
            r == is_lower(self@[3]),
    {
        byte_is_lower(self.bytes[3])
    }

    /// A code is valid when it is all letters and its reserved bit is valid.
    /// The first always holds of a `ChunkType`, so the third letter decides.
    pub fn is_valid(&self) -> (r: bool)
        ensures
            r == (is_type_code(self@) && is_upper(self@[2])),
            is_type_code(self@),
    {
        proof {
            use_type_invariant(self);
        }
        self.is_reserved_bit_valid()
    }

    /// The code as text, one character per letter.
    pub fn to_string(&self) -> (r: String)
        ensures
            r@ == bytes_as_chars(self@),
    {
        proof {
            use_type_invariant(self);
            assert(is_ascii_bytes(self.bytes@)) by {
                assert forall|i: int| 0 <= i < 4 implies #[trigger] self.bytes@[i] < 128 by {
                    assert(is_letter(self.bytes@[i]));
                }
            }
            lemma_ascii_decodes_bytewise(self.bytes@);
        }
        decode_lossy(self.bytes.as_slice())
    }
}

} // verus!
