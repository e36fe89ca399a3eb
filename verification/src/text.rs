use vstd::prelude::*;
use vstd::string::*;
use vstd::utf8::*;

verus! {

/// Each byte of `s` read as one character.
pub open spec fn bytes_as_chars(s: Seq<u8>) -> Seq<char> {
    Seq::new(s.len(), |i: int| s[i] as char)
}

/// Every byte of `s` is below 128.
pub open spec fn is_ascii_bytes(s: Seq<u8>) -> bool {
    forall|i: int| 0 <= i < s.len() ==> #[trigger] s[i] < 128
}

/// ASCII bytes are valid UTF-8 and decode to themselves, byte for character.
pub proof fn lemma_ascii_decodes_bytewise(s: Seq<u8>)
    requires
        is_ascii_bytes(s),
    ensures
        valid_utf8(s),
        decode_utf8(s) == bytes_as_chars(s),
{
    let chars = bytes_as_chars(s);
    assert(is_ascii_chars(chars)) by {
        assert forall|i: int| 0 <= i < chars.len() implies '\0' <= #[trigger] chars[i]
            <= '\u{7f}' by {
            assert(s[i] < 128);
        }
    }
    is_ascii_chars_encode_utf8(chars);
    assert(encode_utf8(chars) =~= s) by {
        assert forall|i: int| 0 <= i < s.len() implies encode_utf8(chars)[i] == s[i] by {
            assert(s[i] < 128);
            assert(chars[i] as u8 == s[i]);
        }
    }
    encode_utf8_valid_utf8(chars);
    encode_utf8_decode_utf8(chars);
}

/// The character for the digit `d`, for `d` from 0 to 9.
pub open spec fn digit(d: nat) -> char {
    ((48 + d) as u8) as char
}

/// `n` in decimal, without sign or leading zeros.
pub open spec fn decimal(n: nat) -> Seq<char>
    decreases n,
{
    if n < 10 {
        seq![digit(n)]
    } else {
        decimal(n / 10).push(digit(n % 10))
    }
}

/// The bytes of `s` in decimal, separated by a comma and a space.
pub open spec fn list_items(s: Seq<u8>) -> Seq<char>
    decreases s.len(),
{
    if s.len() == 0 {
        Seq::empty()
    } else if s.len() == 1 {
        decimal(s[0] as nat)
    } else {
        list_items(s.drop_last()) + ", "@ + decimal(s.last() as nat)
    }
}

/// The bytes of `s` as a bracketed list, the way they are shown for
/// diagnosis: `[1, 2, 3]`.
pub open spec fn list_text(s: Seq<u8>) -> Seq<char> {
    "["@ + list_items(s) + "]"@
}

/// `u32::to_string`. Trusted: the result is the number in decimal, with no
/// sign and no leading zeros.
#[verifier::external_body]
pub(crate) fn decimal_text(x: u32) -> (r: String)
    ensures
        r@ == decimal(x as nat),
{
    x.to_string()
}

/// Renders `data` as a bracketed list of decimal numbers.
pub fn list_of_bytes(data: &[u8]) -> (r: String)
    ensures
        r@ == list_text(data@),
{
    let mut out: String = String::from_str("[");
    let mut i: usize = 0;
    while i < data.len()
        invariant
            i <= data@.len(),
            out@ == "["@ + list_items(data@.subrange(0, i as int)),
        decreases data@.len() - i,
    {
        let ghost before = data@.subrange(0, i as int);
        let ghost upto = data@.subrange(0, i + 1);
        assert(upto.drop_last() =~= before);
        assert(upto.last() == data@[i as int]);
        if i > 0 {
            out.append(", ");
        }
        let item = decimal_text(data[i] as u32);
        out.append(item.as_str());
        assert(out@ =~= "["@ + list_items(upto));
        i += 1;
    }
    assert(data@.subrange(0, i as int) =~= data@);
    out.append("]");
    out
}

/// `String::from_utf8_lossy`, made owned. Trusted: on valid UTF-8 the result
/// is the decoded text. What it yields on other input is left unstated.
#[verifier::external_body]
pub(crate) fn decode_lossy(bytes: &[u8]) -> (r: String)
    ensures
        valid_utf8(bytes@) ==> r@ == decode_utf8(bytes@),
{
    String::from_utf8_lossy(bytes).into_owned()
}

/// `String::from_utf8`, with the error discarded. Trusted: the result is
/// `Some` exactly for valid UTF-8, and then holds the decoded text.
#[verifier::external_body]
pub(crate) fn decode_strict(bytes: Vec<u8>) -> (r: Option<String>)
    ensures
        r is Some <==> valid_utf8(bytes@),
        r matches Some(s) ==> s@ == decode_utf8(bytes@),
{
    String::from_utf8(bytes).ok()
}

} // verus!
