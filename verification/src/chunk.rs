use vstd::prelude::*;
use vstd::slice::{slice_subrange, slice_to_vec};
use vstd::std_specs::convert::TryFromSpecImpl;
use vstd::utf8::{decode_utf8, valid_utf8};
use crate::bytes::{
    append_bytes, be_bytes, be_value, lemma_be_bytes_of_value, lemma_be_value_of_bytes,
    u32_from_be, u32_to_be,
};
use crate::checksum::{checksum, crc32_iso_hdlc};
use crate::chunk_type::{is_type_code, ChunkType};
use crate::error::PngError;
use vstd::string::*;
use crate::text::{bytes_as_chars, decimal, decimal_text, decode_strict, list_of_bytes, list_text};

verus! {

/// What a chunk is, mathematically: its type code, its data and its checksum.
/// The length field is not stored: it is the length of `data`.
pub struct ChunkView {
    pub chunk_type: Seq<u8>,
    pub data: Seq<u8>,
    pub crc: u32,
}

impl ChunkView {
    /// The chunk is well formed: a four-letter type, data whose length fits
    /// the length field, and the checksum of type followed by data.
    pub open spec fn wf(self) -> bool {
        &&& is_type_code(self.chunk_type)
        &&& self.data.len() <= u32::MAX
        &&& self.crc == crc32_iso_hdlc(self.chunk_type + self.data)
    }

    /// The chunk on the wire: length, type, data, checksum; both numbers
    /// big-endian.
    pub open spec fn to_bytes(self) -> Seq<u8> {
        be_bytes(self.data.len() as u32) + self.chunk_type + self.data + be_bytes(self.crc)
    }
}

/// The lines a chunk is summed up in for diagnosis: length, type, data and
/// checksum, one to a line.
pub open spec fn summary(c: ChunkView) -> Seq<char> {
    "Length: "@ + decimal(c.data.len()) + "\nChunk Type: "@ + bytes_as_chars(c.chunk_type)
        + "\nData: "@ + list_text(c.data) + "\nCRC: "@ + decimal(c.crc as nat) + "\n"@
}

/// Reads `b` as exactly one chunk. The checks come in this order: the
/// minimum size, the length field against the size, the type code, the
/// checksum.
pub open spec fn parse_chunk(b: Seq<u8>) -> Result<ChunkView, PngError> {
    if b.len() < 12 {
        Err(PngError::TooShort { actual: b.len() as usize })
    } else {
        let n = be_value(b.subrange(0, 4)) as int;
        let chunk_type = b.subrange(4, 8);
        let data = b.subrange(8, 8 + n);
        let stored = be_value(b.subrange(8 + n, 12 + n));
        let computed = crc32_iso_hdlc(chunk_type + data);
        if b.len() != 12 + n {
            Err(PngError::LengthMismatch { expected: (12 + n) as u64, actual: b.len() as usize })
        } else if !is_type_code(chunk_type) {
            Err(PngError::InvalidTypeCode)
        } else if stored != computed {
            Err(PngError::CrcMismatch { computed, stored })
        } else {
            Ok(ChunkView { chunk_type, data, crc: stored })
        }
    }
}

/// Writing a well-formed chunk and reading it back gives the same chunk.
pub proof fn lemma_parse_of_to_bytes(c: ChunkView)
    requires
        c.wf(),
    ensures
        parse_chunk(c.to_bytes()) == Ok::<ChunkView, PngError>(c),
{
    let b = c.to_bytes();
    let n = c.data.len() as int;
    lemma_be_value_of_bytes(n as u32);
    lemma_be_value_of_bytes(c.crc);
    assert(b.len() == 12 + n);
    assert(b.subrange(0, 4) =~= be_bytes(n as u32));
    assert(b.subrange(4, 8) =~= c.chunk_type);
    assert(b.subrange(8, 8 + n) =~= c.data);
    assert(b.subrange(8 + n, 12 + n) =~= be_bytes(c.crc));
}

/// Whatever parses as a chunk is well formed, and writing it gives back the
/// bytes it was read from.
pub proof fn lemma_to_bytes_of_parse(b: Seq<u8>)
    requires
        parse_chunk(b) is Ok,
    ensures
        parse_chunk(b)->Ok_0.wf(),
        parse_chunk(b)->Ok_0.to_bytes() == b,
{
    let c = parse_chunk(b)->Ok_0;
    let n = be_value(b.subrange(0, 4)) as int;
    lemma_be_bytes_of_value(b.subrange(0, 4));
    lemma_be_bytes_of_value(b.subrange(8 + n, 12 + n));
    assert(c.data.len() == n);
    assert(c.to_bytes() =~= b);
}

/// A buffer of at least twelve bytes whose size disagrees with its own
/// length field is rejected with `LengthMismatch`, whatever else it holds.
/// So cutting bytes out of a chunk or padding it, with the length field
/// left alone, is always noticed.
pub proof fn lemma_length_integrity(b: Seq<u8>)
    requires
        b.len() >= 12,
        b.len() != 12 + be_value(b.subrange(0, 4)),
    ensures
        parse_chunk(b) == Err::<ChunkView, PngError>(
            PngError::LengthMismatch {
                expected: (12 + be_value(b.subrange(0, 4))) as u64,
                actual: b.len() as usize,
            },
        ),
{
}

/// A buffer of the right size with a four-letter type is accepted exactly
/// when its stored checksum is that of its type and data; otherwise the
/// failure is `CrcMismatch`. So a change to type or data that keeps the type
/// four letters is noticed exactly when it changes the checksum.
pub proof fn lemma_checksum_decides(b: Seq<u8>)
    requires
        b.len() >= 12,
        b.len() == 12 + be_value(b.subrange(0, 4)),
        is_type_code(b.subrange(4, 8)),
    ensures
        parse_chunk(b) is Ok <==> be_value(b.subrange(b.len() - 4, b.len() as int))
            == crc32_iso_hdlc(b.subrange(4, b.len() - 4)),
        parse_chunk(b) is Err ==> parse_chunk(b)->Err_0 == (PngError::CrcMismatch {
            computed: crc32_iso_hdlc(b.subrange(4, b.len() - 4)),
            stored: be_value(b.subrange(b.len() - 4, b.len() as int)),
        }),
{
    let n = be_value(b.subrange(0, 4)) as int;
    assert(b.subrange(4, 8) + b.subrange(8, 8 + n) =~= b.subrange(4, b.len() - 4));
}

/// One PNG chunk: a type code, data, and the checksum of both.
pub struct Chunk {
    length: u32,
    chunk_type: ChunkType,
    data: Vec<u8>,
    crc: u32,
}

impl View for Chunk {
    type V = ChunkView;

    closed spec fn view(&self) -> ChunkView {
        ChunkView { chunk_type: self.chunk_type@, data: self.data@, crc: self.crc }
    }
}

impl TryFrom<&[u8]> for Chunk {
    type Error = PngError;

    /// The same as the inherent `Chunk::try_from`.
    fn try_from(value: &[u8]) -> (r: Result<Chunk, PngError>)
        ensures
            match r {
                Ok(c) => parse_chunk(value@) == Ok::<ChunkView, PngError>(c@) && c@.wf()
                    && c@.to_bytes() == value@,
                Err(e) => parse_chunk(value@) == Err::<ChunkView, PngError>(e),
            },
    {
        Chunk::try_from(value)
    }
}

impl TryFromSpecImpl<&[u8]> for Chunk {
    /// Two chunks with the same contents need not be the same value, so the
    /// result is described by the `ensures` of `try_from` instead.
    open spec fn obeys_try_from_spec() -> bool {
        false
    }

    open spec fn try_from_spec(v: &[u8]) -> Result<Chunk, PngError> {
        arbitrary()
    }
}

impl Chunk {
    #[verifier::type_invariant]
    spec fn inv(self) -> bool {
        &&& self@.wf()
        &&& self.length == self.data@.len()
    }

    /// Builds a chunk from its type and data; the checksum is computed.
    pub fn new(chunk_type: ChunkType, data: Vec<u8>) -> (c: Chunk)
        requires
            data@.len() <= u32::MAX,
        ensures
            c@.chunk_type == chunk_type@,
            c@.data == data@,
            c@.crc == crc32_iso_hdlc(chunk_type@ + data@),
            c@.wf(),
    {
        let length: u32 = data.len() as u32;
        let code: [u8; 4] = chunk_type.bytes();
        let mut covered: Vec<u8> = Vec::new();
        append_bytes(&mut covered, code.as_slice());
        append_bytes(&mut covered, data.as_slice());
        assert(covered@ =~= chunk_type@ + data@);
        let crc: u32 = checksum(covered.as_slice());
        Chunk { length, chunk_type, data, crc }
    }

    /// Reads exactly one chunk from `value`, or says why it is not one.
    pub fn try_from(value: &[u8]) -> (r: Result<Chunk, PngError>)
        ensures
            match r {
                Ok(c) => parse_chunk(value@) == Ok::<ChunkView, PngError>(c@) && c@.wf()
                    && c@.to_bytes() == value@,
                Err(e) => parse_chunk(value@) == Err::<ChunkView, PngError>(e),
            },
    {
        proof {
            if parse_chunk(value@) is Ok {
                lemma_to_bytes_of_parse(value@);
            }
        }
        let len: usize = value.len();
        if len < 12 {
            return Err(PngError::TooShort { actual: len });
        }
        let length: u32 = u32_from_be(value, 0);
        let total: u64 = 12 + length as u64;
        if len as u64 != total {
            return Err(PngError::LengthMismatch { expected: total, actual: len });
        }
        let code: [u8; 4] = [value[4], value[5], value[6], value[7]];
        assert(code@ =~= value@.subrange(4, 8));
        let chunk_type = match ChunkType::try_from(code) {
            Ok(t) => t,
            Err(e) => {
                return Err(e);
            },
        };
        let end: usize = len - 4;
        let data: Vec<u8> = slice_to_vec(slice_subrange(value, 8, end));
        let stored: u32 = u32_from_be(value, end);
        let computed: u32 = checksum(slice_subrange(value, 4, end));
        assert(value@.subrange(4, end as int) =~= chunk_type@ + data@);
        if stored != computed {
            return Err(PngError::CrcMismatch { computed, stored });
        }
        Ok(Chunk { length, chunk_type, data, crc: stored })
    }

    /// The number of data bytes.
    pub fn length(&self) -> (r: u32)
        ensures
            r == self@.data.len(),
    {
        proof {
            use_type_invariant(self);
        }
        self.length
    }

    /// The chunk's type code.
    pub fn chunk_type(&self) -> (r: &ChunkType)
        ensures
            r@ == self@.chunk_type,
    {
        &self.chunk_type
    }

    /// The chunk's data.
    pub fn data(&self) -> (r: &[u8])
        ensures
            r@ == self@.data,
    {
        self.data.as_slice()
    }

    /// The chunk's checksum, which is always that of its type and data.
    pub fn crc(&self) -> (r: u32)
        ensures
            r == self@.crc,
            r == crc32_iso_hdlc(self@.chunk_type + self@.data),
    {
        proof {
            use_type_invariant(self);
        }
        self.crc
    }

    /// The data as text, if it is valid UTF-8.
    pub fn data_as_string(&self) -> (r: Result<String, PngError>)
        ensures
            r is Ok <==> valid_utf8(self@.data),
            r matches Ok(s) ==> s@ == decode_utf8(self@.data),
            r matches Err(e) ==> e == PngError::InvalidUtf8,
    {
        match decode_strict(slice_to_vec(self.data.as_slice())) {
            Some(s) => Ok(s),
            None => Err(PngError::InvalidUtf8),
        }
    }

    /// A summary of the chunk for diagnosis. It is not meant to be read back.
    pub fn to_string(&self) -> (r: String)
        ensures
            r@ == summary(self@),
    {
        proof {
            use_type_invariant(self);
        }
        let mut out: String = String::from_str("Length: ");
        out.append(decimal_text(self.length).as_str());
        out.append("\nChunk Type: ");
        out.append(self.chunk_type.to_string().as_str());
        out.append("\nData: ");
        out.append(list_of_bytes(self.data.as_slice()).as_str());
        out.append("\nCRC: ");
        out.append(decimal_text(self.crc).as_str());
        out.append("\n");
        out
    }

    /// The chunk on the wire: twelve bytes more than its data. Reading the
    /// result gives this chunk back.
    pub fn as_bytes(&self) -> (r: Vec<u8>)
        ensures
            r@ == self@.to_bytes(),
            r@.len() == 12 + self@.data.len(),
            self@.wf(),
            parse_chunk(r@) == Ok::<ChunkView, PngError>(self@),
    {
        proof {
            use_type_invariant(self);
            lemma_parse_of_to_bytes(self@);
        }
        let mut out: Vec<u8> = Vec::new();
        append_bytes(&mut out, u32_to_be(self.length).as_slice());
        append_bytes(&mut out, self.chunk_type.bytes().as_slice());
        append_bytes(&mut out, self.data.as_slice());
        append_bytes(&mut out, u32_to_be(self.crc).as_slice());
        assert(out@ =~= self@.to_bytes());
        out
    }
}

} // verus!
