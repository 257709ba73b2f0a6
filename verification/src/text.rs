//! From bytes to text.
use std::borrow::Cow;
use vstd::prelude::*;
use vstd::utf8::*;

verus! {

/// Calls `String::from_utf8`: the text with these bytes, or nothing if they are not valid UTF-8.
#[verifier::external_body]
pub(crate) fn utf8_text(bytes: Vec<u8>) -> (r: Option<String>)
    ensures
        r is Some <==> valid_utf8(bytes@),
        r matches Some(text) ==> encode_utf8(text@) == bytes@,
{
    String::from_utf8(bytes).ok()
}

/// Calls `String::from_utf8_lossy`: of valid UTF-8 it is the text with these bytes.
#[verifier::external_body]
pub(crate) fn lossy_text<'a>(bytes: &'a [u8]) -> (r: Cow<'a, str>)
    requires
        valid_utf8(bytes@),
    ensures
        encode_utf8(r@) == bytes@,
{
    String::from_utf8_lossy(bytes)
}

/// What `<str as Debug>::fmt` writes of a text.
pub uninterp spec fn debug_text(text: Seq<char>) -> Seq<char>;

/// Calls `<str as Debug>::fmt`, which quotes a text and escapes what does not print. Only that its
/// output is a function of the text is claimed, not which characters it escapes.
#[verifier::external_body]
pub(crate) fn quoted(text: &str) -> (r: String)
    ensures
        r@ == debug_text(text@),
{
    format!("{:?}", text)
}

/// Bytes below 128 are valid UTF-8.
pub proof fn lemma_ascii_valid_utf8(bytes: Seq<u8>)
    requires
        forall|i: int| 0 <= i < bytes.len() ==> #[trigger] bytes[i] < 128,
    ensures
        valid_utf8(bytes),
        decode_utf8(bytes) =~= Seq::new(bytes.len(), |i: int| bytes[i] as char),
    decreases bytes.len(),
{
    if bytes.len() > 0 {
        let rest = pop_first_scalar(bytes);
        let b = bytes[0];
        assert(is_leading_byte_width_1(b));
        assert((b & 0x7F) as u32 == b as u32) by (bit_vector)
            requires
                b < 128,
        ;
        assert(rest =~= bytes.skip(1));
        lemma_ascii_valid_utf8(rest);
    }
}

} // verus!
