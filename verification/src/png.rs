use vstd::prelude::*;
use vstd::slice::slice_subrange;
use vstd::string::*;
use crate::bytes::{append_bytes, be_value, u32_from_be};
use crate::chunk::{
    lemma_parse_of_to_bytes, lemma_to_bytes_of_parse, parse_chunk, Chunk, ChunkView,
};
use crate::error::PngError;

verus! {

/// The eight bytes every PNG stream starts with.
pub open spec fn signature() -> Seq<u8> {
    seq![137u8, 80u8, 78u8, 71u8, 13u8, 10u8, 26u8, 10u8]
}

/// The chunks of `cs` on the wire, one after the other.
pub open spec fn chunks_to_bytes(cs: Seq<ChunkView>) -> Seq<u8>
    decreases cs.len(),
{
    if cs.len() == 0 {
        Seq::empty()
    } else {
        cs[0].to_bytes() + chunks_to_bytes(cs.drop_first())
    }
}

/// A whole container on the wire: the signature, then the chunks.
pub open spec fn png_to_bytes(cs: Seq<ChunkView>) -> Seq<u8> {
    signature() + chunks_to_bytes(cs)
}

/// How many bytes at the front of `b` are handed to the chunk parser: the
/// extent that the length field announces where `b` holds that much, and
/// otherwise all of `b`.
pub open spec fn frame_len(b: Seq<u8>) -> int {
    if b.len() >= 12 && 12 + be_value(b.subrange(0, 4)) <= b.len() {
        12 + be_value(b.subrange(0, 4))
    } else {
        b.len() as int
    }
}

/// Reads `b` as chunks laid end to end. The first chunk that fails to parse
/// fails the whole.
pub open spec fn parse_chunks(b: Seq<u8>) -> Result<Seq<ChunkView>, PngError>
    decreases b.len(),
{
    if b.len() == 0 {
        Ok(Seq::empty())
    } else {
        match parse_chunk(b.subrange(0, frame_len(b))) {
            Err(e) => Err(e),
            Ok(c) => prepend(seq![c], parse_chunks(b.subrange(frame_len(b), b.len() as int))),
        }
    }
}

/// `front` put before the chunks of `r`, where `r` has any.
pub open spec fn prepend(front: Seq<ChunkView>, r: Result<Seq<ChunkView>, PngError>) -> Result<
    Seq<ChunkView>,
    PngError,
> {
    match r {
        Ok(rest) => Ok(front + rest),
        Err(e) => Err(e),
    }
}

/// Putting nothing in front changes nothing.
proof fn lemma_prepend_nothing(r: Result<Seq<ChunkView>, PngError>)
    ensures
        prepend(Seq::empty(), r) == r,
{
    if r is Ok {
        assert(Seq::<ChunkView>::empty() + r->Ok_0 =~= r->Ok_0);
    }
}

/// Putting `front` before `c` and what follows is putting `front` with `c`
/// before what follows.
proof fn lemma_prepend_step(
    front: Seq<ChunkView>,
    c: ChunkView,
    r: Result<Seq<ChunkView>, PngError>,
)
    ensures
        prepend(front, prepend(seq![c], r)) == prepend(front.push(c), r),
{
    if r is Ok {
        assert(front + (seq![c] + r->Ok_0) =~= front.push(c) + r->Ok_0);
    }
}

/// Reads `b` as a container: the signature first, then chunks to the end.
pub open spec fn parse_png(b: Seq<u8>) -> Result<Seq<ChunkView>, PngError> {
    if b.len() < 8 || b.subrange(0, 8) != signature() {
        Err(PngError::InvalidSignature)
    } else {
        parse_chunks(b.subrange(8, b.len() as int))
    }
}

/// Every chunk of `cs` is well formed.
pub open spec fn all_wf(cs: Seq<ChunkView>) -> bool {
    forall|i: int| 0 <= i < cs.len() ==> (#[trigger] cs[i]).wf()
}

/// `i` is the position of the first chunk of `cs` whose type is `code`.
pub open spec fn is_first_of_type(cs: Seq<ChunkView>, code: Seq<u8>, i: int) -> bool {
    &&& 0 <= i < cs.len()
    &&& cs[i].chunk_type == code
    &&& forall|j: int| 0 <= j < i ==> (#[trigger] cs[j]).chunk_type != code
}

/// Some chunk of `cs` has the type `code`.
pub open spec fn has_type(cs: Seq<ChunkView>, code: Seq<u8>) -> bool {
    exists|i: int| 0 <= i < cs.len() && (#[trigger] cs[i]).chunk_type == code
}

/// The views of a sequence of chunks.
pub open spec fn chunk_views(s: Seq<Chunk>) -> Seq<ChunkView> {
    s.map_values(|c: Chunk| c@)
}

/// Writing chunks after some others writes their bytes after the others'.
pub proof fn lemma_chunks_to_bytes_push(cs: Seq<ChunkView>, c: ChunkView)
    ensures
        chunks_to_bytes(cs.push(c)) == chunks_to_bytes(cs) + c.to_bytes(),
    decreases cs.len(),
{
    if cs.len() == 0 {
        let one = cs.push(c);
        assert(one.drop_first() =~= Seq::<ChunkView>::empty());
        assert(chunks_to_bytes(one.drop_first()) =~= Seq::<u8>::empty());
        assert(chunks_to_bytes(one) == one[0].to_bytes() + chunks_to_bytes(one.drop_first()));
        assert(chunks_to_bytes(one) =~= chunks_to_bytes(cs) + c.to_bytes());
    } else {
        assert(cs.push(c).drop_first() =~= cs.drop_first().push(c));
        lemma_chunks_to_bytes_push(cs.drop_first(), c);
        assert(chunks_to_bytes(cs.push(c)) =~= chunks_to_bytes(cs) + c.to_bytes());
    }
}

/// Well-formed chunks laid end to end read back as themselves.
pub proof fn lemma_parse_of_chunks_to_bytes(cs: Seq<ChunkView>)
    requires
        all_wf(cs),
    ensures
        parse_chunks(chunks_to_bytes(cs)) == Ok::<Seq<ChunkView>, PngError>(cs),
    decreases cs.len(),
{
    if cs.len() == 0 {
        assert(cs =~= Seq::<ChunkView>::empty());
    } else {
        let c = cs[0];
        let rest = cs.drop_first();
        let b = chunks_to_bytes(cs);
        let n = c.data.len() as int;
        assert(c.wf());
        lemma_parse_of_to_bytes(c);
        assert(c.to_bytes().len() == 12 + n);
        assert(b.subrange(0, 12 + n) =~= c.to_bytes());
        assert(b.subrange(0, 4) =~= c.to_bytes().subrange(0, 4));
        assert(frame_len(b) == 12 + n);
        assert(b.subrange(12 + n, b.len() as int) =~= chunks_to_bytes(rest));
        assert(all_wf(rest)) by {
            assert forall|i: int| 0 <= i < rest.len() implies (#[trigger] rest[i]).wf() by {
                assert(cs[i + 1].wf());
            }
        }
        lemma_parse_of_chunks_to_bytes(rest);
        assert(seq![c] + rest =~= cs);
    }
}

/// Whatever reads as chunks is well formed, and writes back as the bytes it
/// was read from.
pub proof fn lemma_chunks_to_bytes_of_parse(b: Seq<u8>)
    requires
        parse_chunks(b) is Ok,
    ensures
        all_wf(parse_chunks(b)->Ok_0),
        chunks_to_bytes(parse_chunks(b)->Ok_0) == b,
    decreases b.len(),
{
    if b.len() == 0 {
        assert(chunks_to_bytes(Seq::<ChunkView>::empty()) =~= b);
    } else {
        let f = frame_len(b);
        let head = b.subrange(0, f);
        let tail = b.subrange(f, b.len() as int);
        assert(0 < f <= b.len());
        assert(parse_chunk(head) is Ok);
        assert(parse_chunks(tail) is Ok);
        let c = parse_chunk(head)->Ok_0;
        let rest = parse_chunks(tail)->Ok_0;
        let cs = seq![c] + rest;
        assert(parse_chunks(b) == Ok::<Seq<ChunkView>, PngError>(cs));
        assert(c.wf() && c.to_bytes() == head) by {
            lemma_to_bytes_of_parse(head);
        }
        lemma_chunks_to_bytes_of_parse(tail);
        assert(cs[0] == c);
        assert(cs.drop_first() =~= rest);
        assert(chunks_to_bytes(cs) == head + tail);
        assert(head + tail =~= b);
        assert(all_wf(cs)) by {
            assert forall|i: int| 0 <= i < cs.len() implies (#[trigger] cs[i]).wf() by {
                if i > 0 {
                    assert(cs[i] == rest[i - 1]);
                }
            }
        }
    }
}

/// A buffer is its first eight bytes followed by the rest.
proof fn lemma_split_at_signature(b: Seq<u8>)
    requires
        b.len() >= 8,
    ensures
        b.subrange(0, 8) + b.subrange(8, b.len() as int) == b,
{
    assert(b.subrange(0, 8) + b.subrange(8, b.len() as int) =~= b);
}

/// Reading a well-formed container and writing it again reproduces its
/// bytes exactly.
pub proof fn lemma_write_after_read(b: Seq<u8>)
    requires
        parse_png(b) is Ok,
    ensures
        all_wf(parse_png(b)->Ok_0),
        png_to_bytes(parse_png(b)->Ok_0) == b,
{
    let body = b.subrange(8, b.len() as int);
    lemma_chunks_to_bytes_of_parse(body);
    lemma_split_at_signature(b);
}

/// Writing a container of well-formed chunks and reading it again gives the
/// same chunks in the same order.
pub proof fn lemma_read_after_write(cs: Seq<ChunkView>)
    requires
        all_wf(cs),
    ensures
        parse_png(png_to_bytes(cs)) == Ok::<Seq<ChunkView>, PngError>(cs),
{
    let b = png_to_bytes(cs);
    assert(signature().len() == 8);
    assert(b.len() >= 8);
    assert(b.subrange(0, 8) =~= signature());
    assert(b.subrange(8, b.len() as int) =~= chunks_to_bytes(cs));
    lemma_parse_of_chunks_to_bytes(cs);
}

/// The signature as an array.
fn signature_bytes() -> (r: [u8; 8])
    ensures
        r@ == signature(),
{
    let r: [u8; 8] = [137, 80, 78, 71, 13, 10, 26, 10];
    assert(r@ =~= signature());
    r
}

/// Whether `bytes` starts with the signature.
fn starts_with_signature(bytes: &[u8]) -> (r: bool)
    ensures
        r == (bytes@.len() >= 8 && bytes@.subrange(0, 8) == signature()),
{
    if bytes.len() < 8 {
        return false;
    }
    let sig = signature_bytes();
    let mut k: usize = 0;
    while k < 8
        invariant
            k <= 8,
            bytes@.len() >= 8,
            sig@ == signature(),
            forall|j: int| 0 <= j < k ==> bytes@[j] == sig@[j],
        decreases 8 - k,
    {
        if bytes[k] != sig[k] {
            assert(bytes@.subrange(0, 8)[k as int] != signature()[k as int]);
            return false;
        }
        k += 1;
    }
    assert(bytes@.subrange(0, 8) =~= signature());
    true
}

/// Whether the type of `chunk` is exactly the bytes of `code`.
fn has_code(chunk: &Chunk, code: &[u8]) -> (r: bool)
    ensures
        r == (chunk@.chunk_type == code@),
{
    let own = chunk.chunk_type().bytes();
    if code.len() != 4 {
        return false;
    }
    let mut k: usize = 0;
    while k < 4
        invariant
            k <= 4,
            code@.len() == 4,
            own@ == chunk@.chunk_type,
            forall|j: int| 0 <= j < k ==> own@[j] == code@[j],
        decreases 4 - k,
    {
        if own[k] != code[k] {
            return false;
        }
        k += 1;
    }
    assert(own@ =~= code@);
    true
}

/// A PNG container: the signature and an ordered sequence of chunks.
pub struct Png {
    chunks: Vec<Chunk>,
}

impl View for Png {
    type V = Seq<ChunkView>;

    closed spec fn view(&self) -> Seq<ChunkView> {
        chunk_views(self.chunks@)
    }
}

impl Png {
    /// A container that holds `chunks`, in their order.
    pub fn from_chunks(chunks: Vec<Chunk>) -> (p: Png)
        ensures
            p@ == chunk_views(chunks@),
    {
        Png { chunks }
    }

    /// Reads a container from `bytes`: the signature, then chunks up to the
    /// last byte. Nothing is returned unless all of it parses.
    pub fn from_bytes(bytes: &[u8]) -> (r: Result<Png, PngError>)
        ensures
            match r {
                Ok(p) => parse_png(bytes@) == Ok::<Seq<ChunkView>, PngError>(p@) && all_wf(p@)
                    && png_to_bytes(p@) == bytes@,
                Err(e) => parse_png(bytes@) == Err::<Seq<ChunkView>, PngError>(e),
            },
            bytes@.len() < 8 || bytes@.subrange(0, 8) != signature() ==> r is Err && r->Err_0
                == PngError::InvalidSignature,
    {
        if !starts_with_signature(bytes) {
            return Err(PngError::InvalidSignature);
        }
        let len: usize = bytes.len();
        let ghost body = bytes@.subrange(8, len as int);
        let mut chunks: Vec<Chunk> = Vec::new();
        let mut at: usize = 8;
        proof {
            assert(bytes@.subrange(at as int, len as int) == body);
            assert(chunk_views(chunks@) =~= Seq::<ChunkView>::empty());
            lemma_prepend_nothing(parse_chunks(body));
        }
        while at < len
            invariant
                8 <= at <= len,
                len == bytes@.len(),
                bytes@.subrange(0, 8) == signature(),
                body == bytes@.subrange(8, len as int),
                parse_chunks(body) == prepend(
                    chunk_views(chunks@),
                    parse_chunks(bytes@.subrange(at as int, len as int)),
                ),
            decreases len - at,
        {
            let ghost tail = bytes@.subrange(at as int, len as int);
            let rest: usize = len - at;
            let mut frame: usize = rest;
            if rest >= 12 {
                let n: u32 = u32_from_be(bytes, at);
                assert(tail.subrange(0, 4) =~= bytes@.subrange(at as int, at + 4));
                let total: u64 = 12 + n as u64;
                if total <= rest as u64 {
                    frame = total as usize;
                }
            }
            assert(frame == frame_len(tail));
            let piece = slice_subrange(bytes, at, at + frame);
            assert(piece@ =~= tail.subrange(0, frame as int));
            match Chunk::try_from(piece) {
                Err(e) => {
                    return Err(e);
                },
                Ok(c) => {
                    proof {
                        let next = bytes@.subrange(at + frame, len as int);
                        assert(tail.subrange(frame as int, tail.len() as int) =~= next);
                        lemma_prepend_step(chunk_views(chunks@), c@, parse_chunks(next));
                        assert(chunk_views(chunks@.push(c)) =~= chunk_views(chunks@).push(c@));
                    }
                    chunks.push(c);
                    at = at + frame;
                },
            }
        }
        proof {
            assert(bytes@.subrange(at as int, len as int) =~= Seq::<u8>::empty());
            assert(chunk_views(chunks@) + Seq::<ChunkView>::empty() =~= chunk_views(chunks@));
            lemma_write_after_read(bytes@);
        }
        Ok(Png { chunks })
    }

    /// The container on the wire. Reading the result gives this container
    /// back.
    pub fn to_bytes(&self) -> (r: Vec<u8>)
        ensures
            r@ == png_to_bytes(self@),
            all_wf(self@),
            parse_png(r@) == Ok::<Seq<ChunkView>, PngError>(self@),
    {
        let mut out: Vec<u8> = Vec::new();
        append_bytes(&mut out, signature_bytes().as_slice());
        assert(out@ =~= signature() + chunks_to_bytes(self@.take(0))) by {
            assert(self@.take(0) =~= Seq::<ChunkView>::empty());
        }
        let mut i: usize = 0;
        while i < self.chunks.len()
            invariant
                i <= self.chunks@.len(),
                self@.len() == self.chunks@.len(),
                out@ == signature() + chunks_to_bytes(self@.take(i as int)),
                all_wf(self@.take(i as int)),
            decreases self.chunks@.len() - i,
        {
            let piece = self.chunks[i].as_bytes();
            append_bytes(&mut out, piece.as_slice());
            proof {
                let before = self@.take(i as int);
                assert(self@[i as int] == self.chunks@[i as int]@);
                lemma_chunks_to_bytes_push(before, self@[i as int]);
                assert(self@.take(i + 1) =~= before.push(self@[i as int]));
                assert(out@ =~= signature() + chunks_to_bytes(self@.take(i + 1)));
                assert(all_wf(self@.take(i + 1))) by {
                    assert forall|j: int| 0 <= j < i + 1 implies (#[trigger] self@.take(
                        i + 1,
                    )[j]).wf() by {
                        if j < i {
                            assert(before[j].wf());
                        }
                    }
                }
            }
            i += 1;
        }
        proof {
            assert(self@.take(i as int) =~= self@);
            lemma_read_after_write(self@);
        }
        out
    }

    /// Adds `chunk` at the end.
    pub fn append_chunk(&mut self, chunk: Chunk)
        ensures
            final(self)@ == old(self)@.push(chunk@),
    {
        self.chunks.push(chunk);
        assert(chunk_views(self.chunks@) =~= chunk_views(old(self).chunks@).push(chunk@));
    }

    /// Puts `chunk` at position `index`, moving later chunks one place on.
    /// A position past the end is refused, and the container stays as it was.
    pub fn insert_chunk(&mut self, index: usize, chunk: Chunk) -> (r: Result<(), PngError>)
        ensures
            index <= old(self)@.len() ==> r is Ok && final(self)@ == old(self)@.insert(
                index as int,
                chunk@,
            ),
            index > old(self)@.len() ==> r == Err::<(), PngError>(
                PngError::IndexOutOfBounds { index, len: old(self)@.len() as usize },
            ) && final(self)@ == old(self)@,
    {
        let len: usize = self.chunks.len();
        if index > len {
            return Err(PngError::IndexOutOfBounds { index, len });
        }
        self.chunks.insert(index, chunk);
        assert(chunk_views(self.chunks@) =~= chunk_views(old(self).chunks@).insert(
            index as int,
            chunk@,
        ));
        Ok(())
    }

    /// The position of the first chunk whose type is `code`.
    fn position_of(&self, code: &[u8]) -> (r: Option<usize>)
        ensures
            match r {
                Some(i) => is_first_of_type(self@, code@, i as int),
                None => !has_type(self@, code@),
            },
    {
        let mut i: usize = 0;
        while i < self.chunks.len()
            invariant
                i <= self.chunks@.len(),
                self@.len() == self.chunks@.len(),
                forall|j: int| 0 <= j < i ==> (#[trigger] self@[j]).chunk_type != code@,
            decreases self.chunks@.len() - i,
        {
            assert(self@[i as int] == self.chunks@[i as int]@);
            if has_code(&self.chunks[i], code) {
                return Some(i);
            }
            i += 1;
        }
        None
    }

    /// The first chunk whose type code is, byte for byte, `type_str`.
    pub fn chunk_by_type(&self, type_str: &str) -> (r: Option<&Chunk>)
        ensures
            match r {
                Some(c) => exists|i: int|
                    is_first_of_type(self@, type_str.spec_bytes(), i) && #[trigger] self@[i]
                        == c@,
                None => !has_type(self@, type_str.spec_bytes()),
            },
    {
        match self.position_of(type_str.as_bytes()) {
            Some(i) => {
                assert(self@[i as int] == self.chunks@[i as int]@);
                Some(&self.chunks[i])
            },
            None => None,
        }
    }

    /// Removes the first chunk whose type code is `type_str`, and no other.
    /// Where there is none the container stays as it was.
    pub fn remove_first_chunk(&mut self, type_str: &str) -> (r: Result<(), PngError>)
        ensures
            match r {
                Ok(_) => exists|i: int|
                    #[trigger] is_first_of_type(old(self)@, type_str.spec_bytes(), i)
                        && final(self)@ == old(self)@.remove(i),
                Err(e) => e == PngError::ChunkNotFound && !has_type(
                    old(self)@,
                    type_str.spec_bytes(),
                ) && final(self)@ == old(self)@,
            },
    {
        match self.position_of(type_str.as_bytes()) {
            Some(i) => {
                self.chunks.remove(i);
                assert(chunk_views(self.chunks@) =~= chunk_views(old(self).chunks@).remove(
                    i as int,
                ));
                assert(is_first_of_type(old(self)@, type_str.spec_bytes(), i as int));
                Ok(())
            },
            None => Err(PngError::ChunkNotFound),
        }
    }

    /// The chunks, in order.
    pub fn chunks(&self) -> (r: &[Chunk])
        ensures
            chunk_views(r@) == self@,
    {
        self.chunks.as_slice()
    }
}

} // verus!
