//! Standard-library operations whose behaviour is taken on trust.

use vstd::prelude::*;
use vstd::utf8::{decode_utf8, encode_utf8, encode_utf8_decode_utf8, encode_utf8_valid_utf8,
    valid_utf8};

verus! {

/// `String::push` appends the one character `ch` to the end of the string and
/// leaves what was there before in place.
pub assume_specification[ String::push ](s: &mut String, ch: char)
    ensures
        final(s)@ == old(s)@.push(ch),
;

/// The text that permissive UTF-8 decoding makes of `bytes`: well-formed
/// sequences decode to their characters and every malformed sequence is
/// replaced by U+FFFD.
pub uninterp spec fn lossy_text(bytes: Seq<u8>) -> Seq<char>;

/// What permissive decoding makes of `bytes`, spelled out where the bytes
/// are well-formed UTF-8: then it is the text they encode.
pub open spec fn decoded_text(bytes: Seq<u8>) -> Seq<char> {
    if valid_utf8(bytes) {
        decode_utf8(bytes)
    } else {
        lossy_text(bytes)
    }
}

/// `String::from_utf8_lossy` decodes `bytes` permissively. The result is a
/// function of the bytes alone, which the contract names; for well-formed
/// UTF-8 it is the text that the bytes encode, unchanged.
#[verifier::external_body]
pub(crate) fn decode_lossy(bytes: &[u8]) -> (text: String)
    ensures
        text@ == lossy_text(bytes@),
        valid_utf8(bytes@) ==> text@ == decode_utf8(bytes@),
{
    String::from_utf8_lossy(bytes).into_owned()
}

/// Text that went onto the wire as UTF-8 comes back as it was.
pub proof fn lemma_encoded_text_decodes(text: Seq<char>)
    ensures
        decoded_text(encode_utf8(text)) == text,
{
    encode_utf8_valid_utf8(text);
    encode_utf8_decode_utf8(text);
}

} // verus!
