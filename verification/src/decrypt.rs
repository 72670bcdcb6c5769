//! The decryption side of the cipher layer, inverting `encrypt` exactly.

use crate::algorithm::Algorithm;
use crate::crypto::b64_decoded;
use crate::crypto::base64_decode;
use crate::crypto::caesar_unshift_chars;
use crate::crypto::cbc_decrypt;
use crate::crypto::cbc_decrypt_of;
use crate::crypto::parse_key_shift;
use crate::crypto::parse_shift;
use crate::crypto::rot13_chars;
use crate::crypto::rotate_backward;
use crate::encrypt::rot13_encrypt;
use crate::crypto::sha256_digest;
use crate::crypto::sha256_of;
use crate::crypto::xor_bytes;
use crate::crypto::xor_cycle;
use crate::text::string_from_utf8;
use vstd::prelude::*;
use vstd::slice::slice_subrange;
use vstd::slice::slice_to_vec;
use vstd::utf8::decode_utf8;
use vstd::utf8::encode_utf8;
use vstd::utf8::valid_utf8;

verus! {

/// XOR-decrypts: base64-decode, XOR with the non-empty key repeated
/// cyclically, and read the bytes back as UTF-8 text.
pub fn xor_decrypt(encoded: &str, key: &str) -> (r: Result<String, String>)
    ensures
        ({
            match b64_decoded(encoded@) {
                None => r matches Err(e) && e@ == "Failed to decode base64"@,
                Some(data) => {
                    if key@.len() == 0 {
                        r matches Err(e) && e@ == "XOR decryption requires a non-empty key"@
                    } else {
                        let p = xor_bytes(data, encode_utf8(key@));
                        if valid_utf8(p) {
                            r matches Ok(m) && m@ == decode_utf8(p)
                        } else {
                            r matches Err(e) && e@ == "Invalid UTF-8 in decrypted XOR message"@
                        }
                    }
                },
            }
        }),
{
    let data = match base64_decode(encoded) {
        Ok(v) => v,
        Err(_) => {
            return Err("Failed to decode base64".to_owned());
        },
    };
    if key.is_empty() {
        return Err("XOR decryption requires a non-empty key".to_owned());
    }
    let k = key.as_bytes_vec();
    proof {
        assert(encode_utf8(key@).len() > 0);
    }
    let p = xor_cycle(&data, &k);
    match string_from_utf8(p) {
        Ok(s) => Ok(s),
        Err(_) => Err("Invalid UTF-8 in decrypted XOR message".to_owned()),
    }
}

/// Caesar-decrypts: rotates ASCII letters backward by the numeric key.
pub fn caesar_decrypt(msg: &str, key: &str) -> (r: Result<String, String>)
    ensures
        match parse_shift(key@) {
            Some(shift) => r matches Ok(m) && m@ == caesar_unshift_chars(msg@, shift),
            None => r matches Err(e) && e@ == "Key must be a number for Caesar cipher"@,
        },
{
    let shift = match parse_key_shift(key) {
        Some(s) => s,
        None => {
            return Err("Key must be a number for Caesar cipher".to_owned());
        },
    };
    Ok(rotate_backward(msg, shift))
}

/// ROT13 inverts itself: decryption is one more application.
pub fn rot13_decrypt(msg: &str) -> (r: Result<String, String>)
    ensures
        r matches Ok(m) && m@ == rot13_chars(msg@),
{
    Ok(rot13_encrypt(msg))
}

/// AES-decrypts the shipped format: base64-decode, split off the 16-byte
/// initialization vector, decrypt the rest under the SHA-256 digest of
/// the non-empty passphrase, and read the plaintext as UTF-8.
pub fn aes_decrypt(encoded: &str, key: &str) -> (r: Result<String, String>)
    ensures
        ({
            if key@.len() == 0 {
                r matches Err(e) && e@ == "AES decryption requires a non-empty key"@
            } else {
                match b64_decoded(encoded@) {
                    None => r is Err,
                    Some(data) => {
                        if data.len() < 16 {
                            r matches Err(e) && e@ == "Data too short to contain IV"@
                        } else {
                            match cbc_decrypt_of(
                                sha256_of(encode_utf8(key@)),
                                data.take(16),
                                data.skip(16),
                            ) {
                                None => r is Err,
                                Some(p) => {
                                    if valid_utf8(p) {
                                        r matches Ok(m) && m@ == decode_utf8(p)
                                    } else {
                                        r is Err
                                    }
                                },
                            }
                        }
                    },
                }
            }
        }),
{
    if key.is_empty() {
        return Err("AES decryption requires a non-empty key".to_owned());
    }

    let data = match base64_decode(encoded) {
        Ok(v) => v,
        Err(e) => {
            let mut m = String::from_str("Base64 decode error: ");
            m.append(e.as_str());
            return Err(m);
        },
    };

    if data.len() < 16 {
        return Err("Data too short to contain IV".to_owned());
    }

    let iv = slice_to_vec(slice_subrange(data.as_slice(), 0, 16));
    let ct = slice_to_vec(slice_subrange(data.as_slice(), 16, data.len()));
    proof {
        assert(iv@ =~= data@.take(16));
        assert(ct@ =~= data@.skip(16));
    }

    let key_bytes = key.as_bytes_vec();
    let key32 = sha256_digest(&key_bytes);

    let p = match cbc_decrypt(&key32, &iv, &ct) {
        Ok(v) => v,
        Err(e) => {
            let mut m = String::from_str("Decryption failed: ");
            m.append(e.as_str());
            return Err(m);
        },
    };

    match string_from_utf8(p) {
        Ok(s) => Ok(s),
        Err(e) => {
            let mut m = String::from_str("UTF-8 error: ");
            m.append(e.as_str());
            Err(m)
        },
    }
}

/// Decrypts with the selected algorithm: the identity for `Plain`, else
/// the matching cipher's inverse.
pub fn decrypt_message(cipher: &str, key: &str, algo: Algorithm) -> (r: Result<String, String>)
    ensures
        ({
            match algo {
                Algorithm::Plain => r matches Ok(m) && m@ == cipher@,
                Algorithm::Xor => match b64_decoded(cipher@) {
                    None => r matches Err(e) && e@ == "Failed to decode base64"@,
                    Some(data) => {
                        if key@.len() == 0 {
                            r matches Err(e) && e@ == "XOR decryption requires a non-empty key"@
                        } else {
                            let p = xor_bytes(data, encode_utf8(key@));
                            if valid_utf8(p) {
                                r matches Ok(m) && m@ == decode_utf8(p)
                            } else {
                                r matches Err(e) && e@ == "Invalid UTF-8 in decrypted XOR message"@
                            }
                        }
                    },
                },
                Algorithm::Caesar => match parse_shift(key@) {
                    Some(shift) => r matches Ok(m) && m@ == caesar_unshift_chars(cipher@, shift),
                    None => r matches Err(e) && e@ == "Key must be a number for Caesar cipher"@,
                },
                Algorithm::Rot13 => r matches Ok(m) && m@ == rot13_chars(cipher@),
                Algorithm::Aes => {
                    if key@.len() == 0 {
                        r matches Err(e) && e@ == "AES decryption requires a non-empty key"@
                    } else {
                        match b64_decoded(cipher@) {
                            None => r is Err,
                            Some(data) => {
                                if data.len() < 16 {
                                    r matches Err(e) && e@ == "Data too short to contain IV"@
                                } else {
                                    match cbc_decrypt_of(
                                        sha256_of(encode_utf8(key@)),
                                        data.take(16),
                                        data.skip(16),
                                    ) {
                                        None => r is Err,
                                        Some(p) => {
                                            if valid_utf8(p) {
                                                r matches Ok(m) && m@ == decode_utf8(p)
                                            } else {
                                                r is Err
                                            }
                                        },
                                    }
                                }
                            },
                        }
                    }
                },
            }
        }),
{
    match algo {
        Algorithm::Plain => Ok(cipher.to_owned()),
        Algorithm::Xor => xor_decrypt(cipher, key),
        Algorithm::Caesar => caesar_decrypt(cipher, key),
        Algorithm::Rot13 => rot13_decrypt(cipher),
        Algorithm::Aes => aes_decrypt(cipher, key),
    }
}

} // verus!
