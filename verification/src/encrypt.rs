//! The encryption side of the cipher layer.
//!
//! XOR combines the message's UTF-8 bytes with the key repeated
//! cyclically and ships the result base64-encoded.  Caesar rotates ASCII
//! letters by a numeric key, ROT13 by a fixed thirteen.  AES derives a
//! 256-bit key from the passphrase with SHA-256, encrypts in CBC mode
//! under a fresh random initialization vector, and ships the vector and
//! ciphertext together, base64-encoded.

use crate::algorithm::Algorithm;
use crate::crypto::aes_encoded_len;
use crate::crypto::aes_opens_to;
use crate::crypto::base64_encode;
use crate::crypto::base64_of;
use crate::crypto::caesar_chars;
use crate::crypto::cbc_encrypt;
use crate::crypto::parse_key_shift;
use crate::crypto::parse_shift;
use crate::crypto::random_iv;
use crate::crypto::rot13_chars;
use crate::crypto::rotate_forward;
use crate::crypto::sha256_digest;
use crate::crypto::xor_bytes;
use crate::crypto::xor_cycle;
use vstd::prelude::*;
use vstd::utf8::encode_utf8;
use vstd::utf8::is_ascii_chars;

verus! {

/// XOR-encrypts the message with a non-empty key and base64-encodes the
/// result.
pub fn xor_encrypt(msg: &str, key: &str) -> (r: Result<String, String>)
    ensures
        key@.len() == 0 ==> (r matches Err(e) && e@ == "XOR encryption requires a non-empty key"@),
        key@.len() > 0 ==> (r matches Ok(e) && e@ == base64_of(
            xor_bytes(encode_utf8(msg@), encode_utf8(key@)),
        ) && e@.len() == 4 * ((encode_utf8(msg@).len() + 2) / 3) && is_ascii_chars(e@)),
{
    if key.is_empty() {
        return Err("XOR encryption requires a non-empty key".to_owned());
    }
    let m = msg.as_bytes_vec();
    let k = key.as_bytes_vec();
    proof {
        assert(encode_utf8(key@).len() > 0);
    }
    let combined = xor_cycle(&m, &k);
    Ok(base64_encode(&combined))
}

/// Caesar-encrypts the message: the key must read as an unsigned byte,
/// the shift, and ASCII letters rotate forward by it within their case.
pub fn caesar_encrypt(msg: &str, key: &str) -> (r: Result<String, String>)
    ensures
        match parse_shift(key@) {
            Some(shift) => r matches Ok(e) && e@ == caesar_chars(msg@, shift),
            None => r matches Err(e) && e@ == "Key must be a number for Caesar cipher"@,
        },
{
    let shift = match parse_key_shift(key) {
        Some(s) => s,
        None => {
            return Err("Key must be a number for Caesar cipher".to_owned());
        },
    };
    Ok(rotate_forward(msg, shift))
}

/// ROT13: the Caesar rotation with a fixed shift of thirteen, needing no
/// key and inverting itself.
pub fn rot13_encrypt(msg: &str) -> (r: String)
    ensures
        r@ == rot13_chars(msg@),
{
    rotate_forward(msg, 13)
}

/// AES-encrypts the message: SHA-256 of the passphrase as key, CBC mode
/// under a fresh 16-byte initialization vector, the vector and
/// ciphertext shipped together base64-encoded.  Decrypting the result
/// with the same passphrase yields the message back, whatever vector was
/// drawn.
pub fn aes_encrypt(msg: &str, key: &str) -> (r: Result<String, String>)
    ensures
        key@.len() == 0 ==> (r matches Err(e) && e@ == "AES encryption requires a non-empty key"@),
        key@.len() > 0 ==> (r matches Ok(e) && aes_opens_to(e@, key@, msg@) && e@.len()
            == aes_encoded_len(encode_utf8(msg@).len() as int) && is_ascii_chars(e@)),
{
    if key.is_empty() {
        return Err("AES encryption requires a non-empty key".to_owned());
    }
    let key_bytes = key.as_bytes_vec();
    let key32 = sha256_digest(&key_bytes);
    let msg_bytes = msg.as_bytes_vec();
    let iv = random_iv();
    let ghost iv_view = iv@;
    let ct = cbc_encrypt(&key32, &iv, &msg_bytes);
    let ghost ct_view = ct@;
    let mut data = iv;
    let mut ct_tail = ct;
    data.append(&mut ct_tail);
    let e = base64_encode(&data);
    proof {
        broadcast use vstd::utf8::encode_utf8_valid_utf8;
        broadcast use vstd::utf8::encode_utf8_decode_utf8;

        assert(data@.take(16) =~= iv_view);
        assert(data@.skip(16) =~= ct_view);
        assert(aes_opens_to(e@, key@, msg@));
    }
    Ok(e)
}

/// Encrypts with the selected algorithm: the identity for `Plain`, else
/// the matching cipher with its own key discipline.
pub fn encrypt_message(msg: &str, key: &str, algo: Algorithm) -> (r: Result<String, String>)
    ensures
        ({
            match algo {
                Algorithm::Plain => r matches Ok(e) && e@ == msg@,
                Algorithm::Xor => {
                    &&& key@.len() == 0 ==> (r matches Err(e) && e@
                        == "XOR encryption requires a non-empty key"@)
                    &&& key@.len() > 0 ==> (r matches Ok(e) && e@ == base64_of(
                        xor_bytes(encode_utf8(msg@), encode_utf8(key@)),
                    ) && e@.len() == 4 * ((encode_utf8(msg@).len() + 2) / 3) && is_ascii_chars(e@))
                },
                Algorithm::Caesar => match parse_shift(key@) {
                    Some(shift) => r matches Ok(e) && e@ == caesar_chars(msg@, shift),
                    None => r matches Err(e) && e@ == "Key must be a number for Caesar cipher"@,
                },
                Algorithm::Rot13 => r matches Ok(e) && e@ == rot13_chars(msg@),
                Algorithm::Aes => {
                    &&& key@.len() == 0 ==> (r matches Err(e) && e@
                        == "AES encryption requires a non-empty key"@)
                    &&& key@.len() > 0 ==> (r matches Ok(e) && aes_opens_to(e@, key@, msg@)
                        && e@.len() == aes_encoded_len(encode_utf8(msg@).len() as int)
                        && is_ascii_chars(e@))
                },
            }
        }),
{
    match algo {
        Algorithm::Plain => Ok(msg.to_owned()),
        Algorithm::Xor => xor_encrypt(msg, key),
        Algorithm::Caesar => caesar_encrypt(msg, key),
        Algorithm::Rot13 => Ok(rot13_encrypt(msg)),
        Algorithm::Aes => aes_encrypt(msg, key),
    }
}

} // verus!
