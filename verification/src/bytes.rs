use vstd::prelude::*;

verus! {

/// The four bytes of `x`, most significant first.
#[verifier::opaque]
pub open spec fn be_bytes(x: u32) -> Seq<u8> {
    seq![
        (x / 0x100_0000) as u8,
        (x / 0x1_0000 % 0x100) as u8,
        (x / 0x100 % 0x100) as u8,
        (x % 0x100) as u8,
    ]
}

/// The number whose big-endian bytes are the first four of `s`.
#[verifier::opaque]
pub open spec fn be_value(s: Seq<u8>) -> u32
    recommends
        s.len() >= 4,
{
    (s[0] * 0x100_0000 + s[1] * 0x1_0000 + s[2] * 0x100 + s[3]) as u32
}

/// Decoding undoes encoding.
pub proof fn lemma_be_value_of_bytes(x: u32)
    ensures
        be_bytes(x).len() == 4,
        be_value(be_bytes(x)) == x,
{
    reveal(be_bytes);
    reveal(be_value);
}

/// Encoding undoes decoding, on exactly four bytes.
pub proof fn lemma_be_bytes_of_value(s: Seq<u8>)
    requires
        s.len() == 4,
    ensures
        be_bytes(be_value(s)) == s,
{
    reveal(be_bytes);
    reveal(be_value);
    let a: int = s[0] as int;
    let b: int = s[1] as int;
    let c: int = s[2] as int;
    let d: int = s[3] as int;
    let v: int = a * 0x100_0000 + b * 0x1_0000 + c * 0x100 + d;
    assert(v == be_value(s));
    assert(v % 0x100 == d);
    assert(v / 0x100 == a * 0x1_0000 + b * 0x100 + c);
    assert(v / 0x100 % 0x100 == c);
    assert(v / 0x1_0000 == a * 0x100 + b);
    assert(v / 0x1_0000 % 0x100 == b);
    assert(v / 0x100_0000 == a);
    assert(be_bytes(be_value(s)) =~= s);
}

/// Encodes `x` in four bytes, most significant first.
pub fn u32_to_be(x: u32) -> (r: [u8; 4])
    ensures
        r@ == be_bytes(x),
{
    let r: [u8; 4] = [
        (x / 0x100_0000) as u8,
        (x / 0x1_0000 % 0x100) as u8,
        (x / 0x100 % 0x100) as u8,
        (x % 0x100) as u8,
    ];
    proof {
        reveal(be_bytes);
    }
    assert(r@ =~= be_bytes(x));
    r
}

/// Decodes the four bytes of `src` that start at `at`, most significant first.
pub fn u32_from_be(src: &[u8], at: usize) -> (r: u32)
    requires
        at + 4 <= src@.len(),
    ensures
        r == be_value(src@.subrange(at as int, at + 4)),
{
    proof {
        reveal(be_value);
    }
    let b0: u32 = src[at] as u32;
    let b1: u32 = src[at + 1] as u32;
    let b2: u32 = src[at + 2] as u32;
    let b3: u32 = src[at + 3] as u32;
    b0 * 0x100_0000 + b1 * 0x1_0000 + b2 * 0x100 + b3
}

/// Appends every byte of `src` to `out`, in order.
pub fn append_bytes(out: &mut Vec<u8>, src: &[u8])
    ensures
        final(out)@ == old(out)@ + src@,
{
    let mut i: usize = 0;
    while i < src.len()
        invariant
            i <= src@.len(),
            out@ == old(out)@ + src@.subrange(0, i as int),
        decreases src@.len() - i,
    {
        out.push(src[i]);
        i += 1;
        assert(out@ =~= old(out)@ + src@.subrange(0, i as int));
    }
    assert(src@.subrange(0, i as int) =~= src@);
}

} // verus!
