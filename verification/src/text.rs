//! Helpers for moving between strings, characters and bytes.
//!
//! Extracted payload bytes are read back one byte per character, each byte
//! taken as the character with that code point; this matches the embedding
//! side exactly whenever the payload is ASCII (which every base64-encoded
//! ciphertext is).

use vstd::prelude::*;

verus! {

/// A byte sequence read as characters, each byte taken as the character
/// with that code point.
pub open spec fn bytes_as_chars(bytes: Seq<u8>) -> Seq<char> {
    Seq::new(bytes.len(), |i: int| bytes[i] as char)
}

/// Reading an ASCII text's UTF-8 bytes back as code points gives the
/// text itself: byte-for-byte extraction is lossless on ASCII payloads.
pub proof fn lemma_ascii_bytes_as_chars(s: Seq<char>)
    requires
        vstd::utf8::is_ascii_chars(s),
    ensures
        bytes_as_chars(vstd::utf8::encode_utf8(s)) == s,
{
    vstd::utf8::is_ascii_chars_encode_utf8(s);
    let bytes = vstd::utf8::encode_utf8(s);
    assert forall|i: int| 0 <= i < s.len() implies bytes_as_chars(bytes)[i] == s[i] by {
        assert(bytes[i] == s[i] as u8);
        assert((s[i] as u32) < 128) by {
            vstd::utf8::is_ascii_chars_nat_bound(s);
        }
        assert((s[i] as u8) as char == s[i]) by {
            vstd::utf8::char_u32_cast(s[i], s[i] as u32);
        }
    }
    assert(bytes_as_chars(bytes) =~= s);
}

/// Relies on `String: FromIterator<char>`: collecting characters yields
/// the string of exactly those characters.
#[verifier::external_body]
pub(crate) fn string_of_chars(chars: &Vec<char>) -> (r: String)
    ensures
        r@ == chars@,
{
    chars.iter().collect()
}

/// Relies on `String::from_utf8`: it succeeds exactly on valid UTF-8 and
/// returns the string those bytes encode; on failure the error's text is
/// returned, about which nothing is claimed.
#[verifier::external_body]
pub(crate) fn string_from_utf8(bytes: Vec<u8>) -> (r: Result<String, String>)
    ensures
        r is Ok <==> vstd::utf8::valid_utf8(bytes@),
        r matches Ok(s) ==> s@ == vstd::utf8::decode_utf8(bytes@),
{
    String::from_utf8(bytes).map_err(|e| format!("{e}"))
}

} // verus!
