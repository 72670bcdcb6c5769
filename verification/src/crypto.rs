//! What the ciphers compute, and the outside routines they lean on.
//!
//! The XOR and AES ciphers work on a message's UTF-8 bytes and ship their
//! output base64-encoded; Caesar and ROT13 rewrite the characters in
//! place.  Everything deterministic about the outside routines is named
//! here so the cipher functions' contracts can be exact; the one
//! non-deterministic piece, the fresh AES initialization vector, is
//! promised nothing beyond its length.

use base64::Engine;
use vstd::arithmetic::div_mod::lemma_fundamental_div_mod;
use vstd::arithmetic::div_mod::lemma_mod_add_multiples_vanish;
use vstd::arithmetic::div_mod::lemma_mod_multiples_vanish;
use vstd::arithmetic::div_mod::lemma_small_mod;
use block_modes::BlockMode;
use sha2::Digest;
use vstd::prelude::*;
use vstd::utf8::encode_utf8;
use vstd::utf8::encode_scalar;

verus! {

// ---------------------------------------------------------------------
// Character arithmetic shared by the Caesar and ROT13 ciphers.
// ---------------------------------------------------------------------
/// An ASCII letter rotated forward within its case's alphabet; any other
/// character is left alone.
pub open spec fn shift_char(c: char, shift: u8) -> char {
    let u = c as u32;
    if 97 <= u <= 122 {
        ((((u - 97) + shift as u32) % 26 + 97) as u8) as char
    } else if 65 <= u <= 90 {
        ((((u - 65) + shift as u32) % 26 + 65) as u8) as char
    } else {
        c
    }
}

/// An ASCII letter rotated backward by the same amount: the complementary
/// forward rotation.
pub open spec fn unshift_char(c: char, shift: u8) -> char {
    let u = c as u32;
    if 97 <= u <= 122 {
        ((((u - 97) + (26 - shift as u32 % 26)) % 26 + 97) as u8) as char
    } else if 65 <= u <= 90 {
        ((((u - 65) + (26 - shift as u32 % 26)) % 26 + 65) as u8) as char
    } else {
        c
    }
}

/// A whole text rotated forward.
pub open spec fn caesar_chars(s: Seq<char>, shift: u8) -> Seq<char> {
    Seq::new(s.len(), |i: int| shift_char(s[i], shift))
}

/// A whole text rotated backward.
pub open spec fn caesar_unshift_chars(s: Seq<char>, shift: u8) -> Seq<char> {
    Seq::new(s.len(), |i: int| unshift_char(s[i], shift))
}

/// ROT13 is the Caesar rotation with a fixed shift of 13.
pub open spec fn rot13_chars(s: Seq<char>) -> Seq<char> {
    caesar_chars(s, 13)
}

// ---------------------------------------------------------------------
// The Caesar key: a string parsed as an unsigned byte.
// ---------------------------------------------------------------------
/// The decimal value of a digit string, most-significant digit first.
pub open spec fn dec_val(s: Seq<char>) -> int
    decreases s.len(),
{
    if s.len() == 0 {
        0
    } else {
        10 * dec_val(s.drop_last()) + (s.last() as int - 48)
    }
}

/// A non-empty run of ASCII decimal digits.
pub open spec fn is_dec_digits(s: Seq<char>) -> bool {
    s.len() > 0 && forall|i: int| 0 <= i < s.len() ==> 48 <= (#[trigger] s[i]) as int <= 57
}

/// How `u8::from_str` reads a string: an optional leading plus sign, then
/// one or more decimal digits, whose value must fit in a byte.
pub open spec fn parse_shift(s: Seq<char>) -> Option<u8> {
    let t = if s.len() > 0 && s[0] == '+' {
        s.drop_first()
    } else {
        s
    };
    if is_dec_digits(t) && dec_val(t) <= 255 {
        Some(dec_val(t) as u8)
    } else {
        None
    }
}

// ---------------------------------------------------------------------
// The XOR cipher's byte arithmetic.
// ---------------------------------------------------------------------
/// Each data byte combined with the key repeated cyclically.
pub open spec fn xor_bytes(data: Seq<u8>, key: Seq<u8>) -> Seq<u8>
    recommends
        key.len() > 0,
{
    Seq::new(data.len(), |i: int| data[i] ^ key[i % key.len() as int])
}

// ---------------------------------------------------------------------
// Named results of the outside routines.
// ---------------------------------------------------------------------
/// What base64's standard engine encodes a byte string to.
pub uninterp spec fn base64_of(bytes: Seq<u8>) -> Seq<char>;

/// What base64's standard engine decodes a text to, where it accepts it.
pub uninterp spec fn b64_decoded(text: Seq<char>) -> Option<Seq<u8>>;

/// The SHA-256 digest of a byte string.
pub uninterp spec fn sha256_of(bytes: Seq<u8>) -> Seq<u8>;

/// What AES-256-CBC with PKCS#7 padding decrypts a ciphertext to under
/// the given key and initialization vector, where the padding checks out.
pub uninterp spec fn cbc_decrypt_of(key: Seq<u8>, iv: Seq<u8>, cipher: Seq<u8>) -> Option<Seq<u8>>;

/// The byte length of a PKCS#7-padded plaintext: the next multiple of the
/// 16-byte block size, a full block when already aligned.
pub open spec fn pkcs7_padded_len(plain_len: int) -> int {
    16 * (plain_len / 16 + 1)
}

/// The character length of the shipped AES output: the 16-byte
/// initialization vector plus the padded ciphertext, base64-encoded.
pub open spec fn aes_encoded_len(plain_len: int) -> int {
    4 * ((16 + pkcs7_padded_len(plain_len) + 2) / 3)
}

/// The decryption side of the shipped AES format: base64-decode, split
/// off the 16-byte initialization vector, decrypt the rest under the
/// SHA-256 digest of the passphrase, and read the plaintext as UTF-8.
/// Holds exactly when every stage goes through and yields `msg`.
pub open spec fn aes_opens_to(cipher: Seq<char>, key: Seq<char>, msg: Seq<char>) -> bool {
    match b64_decoded(cipher) {
        Some(data) => data.len() >= 16 && match cbc_decrypt_of(
            sha256_of(encode_utf8(key)),
            data.take(16),
            data.skip(16),
        ) {
            Some(p) => vstd::utf8::valid_utf8(p) && vstd::utf8::decode_utf8(p) == msg,
            None => false,
        },
        None => false,
    }
}

// ---------------------------------------------------------------------
// The trusted wrappers around the outside routines.
// ---------------------------------------------------------------------
/// Relies on base64's `STANDARD` engine `encode`: a fixed function of the
/// bytes; with padding the output is 4·⌈n/3⌉ ASCII characters, and the
/// same engine's `decode` inverts it.
#[verifier::external_body]
pub(crate) fn base64_encode(bytes: &Vec<u8>) -> (r: String)
    ensures
        r@ == base64_of(bytes@),
        r@.len() == 4 * ((bytes@.len() + 2) / 3),
        vstd::utf8::is_ascii_chars(r@),
        b64_decoded(r@) == Some(bytes@),
{
    base64::engine::general_purpose::STANDARD.encode(bytes.as_slice())
}

/// Relies on base64's `STANDARD` engine `decode`: a fixed function of the
/// text, failing exactly where the text is no base64 encoding; the
/// error's own text is returned and nothing is claimed of it.
#[verifier::external_body]
pub(crate) fn base64_decode(text: &str) -> (r: Result<Vec<u8>, String>)
    ensures
        r is Ok <==> b64_decoded(text@) is Some,
        r matches Ok(v) ==> Some(v@) == b64_decoded(text@),
{
    base64::engine::general_purpose::STANDARD.decode(text).map_err(|e| format!("{e}"))
}

/// Relies on `sha2::Sha256`: the digest is a fixed 32-byte function of
/// the input.
#[verifier::external_body]
pub(crate) fn sha256_digest(bytes: &Vec<u8>) -> (r: Vec<u8>)
    ensures
        r@ == sha256_of(bytes@),
        r@.len() == 32,
{
    let mut hasher = sha2::Sha256::new();
    hasher.update(bytes.as_slice());
    hasher.finalize().to_vec()
}

/// Relies on `rand::rng`: a fresh 16-byte initialization vector, of whose
/// contents nothing is promised.
#[verifier::external_body]
pub(crate) fn random_iv() -> (r: Vec<u8>)
    ensures
        r@.len() == 16,
{
    let mut rng = rand::rng();
    let iv: [u8; 16] = rand::Rng::random(&mut rng);
    iv.to_vec()
}

/// Relies on block-modes' AES-256-CBC with PKCS#7 padding (`encrypt_vec`):
/// the plaintext is padded to the next 16-byte boundary, and the same
/// mode's decryption under the same key and vector inverts it exactly.
#[verifier::external_body]
pub(crate) fn cbc_encrypt(key: &Vec<u8>, iv: &Vec<u8>, plaintext: &Vec<u8>) -> (r: Vec<u8>)
    requires
        key@.len() == 32,
        iv@.len() == 16,
    ensures
        r@.len() == pkcs7_padded_len(plaintext@.len() as int),
        cbc_decrypt_of(key@, iv@, r@) == Some(plaintext@),
{
    let cipher = block_modes::Cbc::<aes::Aes256, block_modes::block_padding::Pkcs7>::new_from_slices(
        key,
        iv,
    ).expect("an AES-256 key is 32 bytes and a CBC initialization vector 16");
    cipher.encrypt_vec(plaintext)
}

/// Relies on the same mode's `decrypt_vec`: a fixed function of key,
/// vector and ciphertext, failing exactly where the ciphertext is not
/// block-aligned or its padding is malformed; the error's own text is
/// returned and nothing is claimed of it.
#[verifier::external_body]
pub(crate) fn cbc_decrypt(key: &Vec<u8>, iv: &Vec<u8>, ciphertext: &Vec<u8>) -> (r: Result<
    Vec<u8>,
    String,
>)
    requires
        key@.len() == 32,
        iv@.len() == 16,
    ensures
        r is Ok <==> cbc_decrypt_of(key@, iv@, ciphertext@) is Some,
        r matches Ok(v) ==> Some(v@) == cbc_decrypt_of(key@, iv@, ciphertext@),
{
    let cipher = block_modes::Cbc::<aes::Aes256, block_modes::block_padding::Pkcs7>::new_from_slices(
        key,
        iv,
    ).expect("an AES-256 key is 32 bytes and a CBC initialization vector 16");
    cipher.decrypt_vec(ciphertext).map_err(|e| format!("{e}"))
}

// ---------------------------------------------------------------------
// Executable pieces shared by the encryption and decryption sides.
// ---------------------------------------------------------------------
/// Rotates a text's ASCII letters forward by the shift.
pub(crate) fn rotate_forward(msg: &str, shift: u8) -> (r: String)
    ensures
        r@ == caesar_chars(msg@, shift),
{
    let n = msg.unicode_len();
    let mut chars: Vec<char> = Vec::new();
    for i in 0..n
        invariant
            n == msg@.len(),
            chars@ == caesar_chars(msg@, shift).take(i as int),
    {
        let c = msg.get_char(i);
        let u = c as u32;
        let rotated: char = if 97 <= u && u <= 122 {
            ((((u - 97) + shift as u32) % 26 + 97) as u8) as char
        } else if 65 <= u && u <= 90 {
            ((((u - 65) + shift as u32) % 26 + 65) as u8) as char
        } else {
            c
        };
        proof {
            assert(rotated == shift_char(msg@[i as int], shift));
            assert(caesar_chars(msg@, shift).take(i as int).push(rotated) =~= caesar_chars(
                msg@,
                shift,
            ).take(i + 1));
        }
        chars.push(rotated);
    }
    proof {
        assert(caesar_chars(msg@, shift).take(n as int) =~= caesar_chars(msg@, shift));
    }
    crate::text::string_of_chars(&chars)
}

/// Rotates a text's ASCII letters backward by the shift.
pub(crate) fn rotate_backward(msg: &str, shift: u8) -> (r: String)
    ensures
        r@ == caesar_unshift_chars(msg@, shift),
{
    let n = msg.unicode_len();
    let mut chars: Vec<char> = Vec::new();
    for i in 0..n
        invariant
            n == msg@.len(),
            chars@ == caesar_unshift_chars(msg@, shift).take(i as int),
    {
        let c = msg.get_char(i);
        let u = c as u32;
        let back = 26 - (shift as u32) % 26;
        let rotated: char = if 97 <= u && u <= 122 {
            ((((u - 97) + back) % 26 + 97) as u8) as char
        } else if 65 <= u && u <= 90 {
            ((((u - 65) + back) % 26 + 65) as u8) as char
        } else {
            c
        };
        proof {
            assert(rotated == unshift_char(msg@[i as int], shift));
            assert(caesar_unshift_chars(msg@, shift).take(i as int).push(rotated)
                =~= caesar_unshift_chars(msg@, shift).take(i + 1));
        }
        chars.push(rotated);
    }
    proof {
        assert(caesar_unshift_chars(msg@, shift).take(n as int) =~= caesar_unshift_chars(
            msg@,
            shift,
        ));
    }
    crate::text::string_of_chars(&chars)
}

proof fn lemma_dec_val_nonneg(s: Seq<char>)
    requires
        forall|i: int| 0 <= i < s.len() ==> 48 <= (#[trigger] s[i]) as int <= 57,
    ensures
        dec_val(s) >= 0,
    decreases s.len(),
{
    if s.len() > 0 {
        lemma_dec_val_nonneg(s.drop_last());
    }
}

/// A digit string is worth at least any of its prefixes.
proof fn lemma_dec_val_prefix(s: Seq<char>, j: int)
    requires
        forall|i: int| 0 <= i < s.len() ==> 48 <= (#[trigger] s[i]) as int <= 57,
        0 <= j <= s.len(),
    ensures
        dec_val(s.take(j)) <= dec_val(s),
    decreases s.len() - j,
{
    if j == s.len() {
        assert(s.take(j) =~= s);
    } else {
        assert(s.take(j + 1).drop_last() =~= s.take(j));
        assert(forall|i: int| 0 <= i < s.take(j).len() ==> 48 <= (#[trigger] s.take(j)[i]) as int
            <= 57);
        lemma_dec_val_nonneg(s.take(j));
        assert(dec_val(s.take(j + 1)) == 10 * dec_val(s.take(j)) + (s[j] as int - 48));
        lemma_dec_val_prefix(s, j + 1);
    }
}

/// Reads a Caesar key the way `u8::from_str` would: an optional leading
/// plus sign, then decimal digits whose value fits in a byte.
pub(crate) fn parse_key_shift(key: &str) -> (r: Option<u8>)
    ensures
        r == parse_shift(key@),
{
    let n = key.unicode_len();
    let start: usize = if n > 0 && key.get_char(0) == '+' {
        1
    } else {
        0
    };
    let ghost t = if key@.len() > 0 && key@[0] == '+' {
        key@.drop_first()
    } else {
        key@
    };
    proof {
        assert(t =~= key@.subrange(start as int, n as int));
    }
    if start == n {
        proof {
            assert(t.len() == 0);
        }
        return None;
    }
    let mut val: u32 = 0;
    let mut i: usize = start;
    while i < n
        invariant
            n == key@.len(),
            start <= i <= n,
            start < n,
            (start == 1) == (key@.len() > 0 && key@[0] == '+'),
            t == key@.subrange(start as int, n as int),
            t == (if key@.len() > 0 && key@[0] == '+' {
                key@.drop_first()
            } else {
                key@
            }),
            val == dec_val(key@.subrange(start as int, i as int)),
            val <= 255,
            forall|j: int| start <= j < i ==> 48 <= (#[trigger] key@[j]) as int <= 57,
        decreases n - i,
    {
        let c = key.get_char(i);
        let u = c as u32;
        if u < 48 || u > 57 {
            proof {
                assert(t[i - start as int] == key@[i as int]);
                assert(!is_dec_digits(t));
            }
            return None;
        }
        let d = u - 48;
        let v2 = val * 10 + d;
        proof {
            assert(key@.subrange(start as int, i + 1).drop_last() =~= key@.subrange(
                start as int,
                i as int,
            ));
            assert(key@.subrange(start as int, i + 1).last() == key@[i as int]);
        }
        if v2 > 255 {
            proof {
                if is_dec_digits(t) {
                    assert(forall|j: int| 0 <= j < t.len() ==> 48 <= (#[trigger] t[j]) as int
                        <= 57);
                    assert(t.take(i + 1 - start) =~= key@.subrange(start as int, i + 1));
                    lemma_dec_val_prefix(t, i + 1 - start);
                    assert(dec_val(t) >= v2);
                }
            }
            return None;
        }
        val = v2;
        i += 1;
    }
    proof {
        assert(t =~= key@.subrange(start as int, n as int));
        assert(forall|j: int| 0 <= j < t.len() ==> 48 <= (#[trigger] t[j]) as int <= 57);
        assert(is_dec_digits(t));
        assert(val == dec_val(t));
    }
    Some(val as u8)
}

/// XORs the data with the key repeated cyclically.
pub(crate) fn xor_cycle(data: &Vec<u8>, key: &Vec<u8>) -> (r: Vec<u8>)
    requires
        key@.len() > 0,
    ensures
        r@ == xor_bytes(data@, key@),
{
    let mut out: Vec<u8> = Vec::new();
    let n = data.len();
    let klen = key.len();
    for i in 0..n
        invariant
            n == data@.len(),
            klen == key@.len(),
            klen > 0,
            out@.len() == i,
            forall|j: int| 0 <= j < i ==> out@[j] == xor_bytes(data@, key@)[j],
    {
        out.push(data[i] ^ key[i % klen]);
    }
    proof {
        assert(out@ =~= xor_bytes(data@, key@));
    }
    out
}

// ---------------------------------------------------------------------
// Rewriting characters keeps the UTF-8 byte length.
// ---------------------------------------------------------------------
/// A character map that only ever replaces an ASCII character with an
/// ASCII character keeps the encoded byte length.
pub proof fn lemma_encode_len_char_map(s: Seq<char>, t: Seq<char>)
    requires
        s.len() == t.len(),
        forall|i: int|
            0 <= i < s.len() ==> (#[trigger] t[i]) == s[i] || ((s[i] as u32) <= 0x7f && (t[i]
                as u32) <= 0x7f),
    ensures
        encode_utf8(t).len() == encode_utf8(s).len(),
    decreases s.len(),
{
    if s.len() > 0 {
        assert(encode_scalar(s[0] as u32).len() == encode_scalar(t[0] as u32).len());
        lemma_encode_len_char_map(s.drop_first(), t.drop_first());
    }
}

/// The Caesar rotations replace ASCII letters with ASCII letters, so the
/// rotated text encodes to exactly as many bytes.
pub proof fn lemma_caesar_len(s: Seq<char>, shift: u8)
    ensures
        encode_utf8(caesar_chars(s, shift)).len() == encode_utf8(s).len(),
        encode_utf8(caesar_unshift_chars(s, shift)).len() == encode_utf8(s).len(),
{
    lemma_encode_len_char_map(s, caesar_chars(s, shift));
    lemma_encode_len_char_map(s, caesar_unshift_chars(s, shift));
}

// ---------------------------------------------------------------------
// The ciphers' inverse laws.
// ---------------------------------------------------------------------
/// XOR with the cycled key undoes itself: applying it twice gives the
/// data back.
pub proof fn lemma_xor_round_trip(data: Seq<u8>, key: Seq<u8>)
    requires
        key.len() > 0,
    ensures
        xor_bytes(xor_bytes(data, key), key) == data,
{
    let once = xor_bytes(data, key);
    assert forall|i: int| 0 <= i < data.len() implies xor_bytes(once, key)[i] == data[i] by {
        let k = key[i % key.len() as int];
        let d = data[i];
        assert((d ^ k) ^ k == d) by (bit_vector);
    }
    assert(xor_bytes(once, key) =~= data);
}

/// Rotating forward by any shift and then backward by its complement
/// restores a letter's alphabet offset.
proof fn lemma_mod_rotation(a: int, s: int)
    requires
        0 <= a < 26,
        0 <= s,
    ensures
        ((a + s) % 26 + (26 - s % 26)) % 26 == a,
{
    let t = s % 26;
    lemma_fundamental_div_mod(s, 26);
    let q = s / 26;
    assert(a + s == 26 * q + (a + t));
    lemma_mod_multiples_vanish(q, a + t, 26);
    assert((a + s) % 26 == (a + t) % 26);
    if a + t < 26 {
        lemma_small_mod((a + t) as nat, 26);
        assert((a + s) % 26 + (26 - t) == 26 + a);
        lemma_mod_add_multiples_vanish(a, 26);
        lemma_small_mod(a as nat, 26);
    } else {
        assert(a + t == 26 * 1 + (a + t - 26));
        lemma_mod_multiples_vanish(1, a + t - 26, 26);
        lemma_small_mod((a + t - 26) as nat, 26);
        assert((a + s) % 26 == a + t - 26);
        assert((a + s) % 26 + (26 - t) == a);
        lemma_small_mod(a as nat, 26);
    }
}

/// The backward rotation undoes the forward one on every character.
proof fn lemma_unshift_shift_char(c: char, shift: u8)
    ensures
        unshift_char(shift_char(c, shift), shift) == c,
{
    let u = c as u32;
    let s = shift as u32;
    if 97 <= u <= 122 {
        let a = u - 97;
        lemma_mod_rotation(a as int, s as int);
        assert(shift_char(c, shift) as u32 == (a + s) % 26 + 97);
        assert(unshift_char(shift_char(c, shift), shift) as u32 == u);
        vstd::utf8::char_u32_cast(c, u);
        vstd::utf8::char_u32_cast(unshift_char(shift_char(c, shift), shift), u);
    } else if 65 <= u <= 90 {
        let a = u - 65;
        lemma_mod_rotation(a as int, s as int);
        assert(shift_char(c, shift) as u32 == (a + s) % 26 + 65);
        assert(unshift_char(shift_char(c, shift), shift) as u32 == u);
        vstd::utf8::char_u32_cast(c, u);
        vstd::utf8::char_u32_cast(unshift_char(shift_char(c, shift), shift), u);
    }
}

/// The Caesar cipher's inverse law: rotating backward by the shift that
/// rotated forward restores the original text.
pub proof fn lemma_caesar_round_trip(s: Seq<char>, shift: u8)
    ensures
        caesar_unshift_chars(caesar_chars(s, shift), shift) == s,
{
    assert forall|i: int| 0 <= i < s.len() implies caesar_unshift_chars(
        caesar_chars(s, shift),
        shift,
    )[i] == s[i] by {
        lemma_unshift_shift_char(s[i], shift);
    }
    assert(caesar_unshift_chars(caesar_chars(s, shift), shift) =~= s);
}

/// A character rotated by thirteen twice comes back: the two shifts add
/// up to the alphabet's length.
proof fn lemma_rot13_char(c: char)
    ensures
        shift_char(shift_char(c, 13), 13) == c,
{
    let u = c as u32;
    if 97 <= u <= 122 {
        let a = u - 97;
        lemma_mod_rotation(a as int, 13);
        assert((((a + 13) % 26) + 13) % 26 == a);
        vstd::utf8::char_u32_cast(c, u);
        vstd::utf8::char_u32_cast(shift_char(shift_char(c, 13), 13), u);
    } else if 65 <= u <= 90 {
        let a = u - 65;
        lemma_mod_rotation(a as int, 13);
        assert((((a + 13) % 26) + 13) % 26 == a);
        vstd::utf8::char_u32_cast(c, u);
        vstd::utf8::char_u32_cast(shift_char(shift_char(c, 13), 13), u);
    }
}

/// ROT13 is its own inverse: applying it twice restores the text.
pub proof fn lemma_rot13_self_inverse(s: Seq<char>)
    ensures
        rot13_chars(rot13_chars(s)) == s,
{
    assert forall|i: int| 0 <= i < s.len() implies rot13_chars(rot13_chars(s))[i] == s[i] by {
        lemma_rot13_char(s[i]);
    }
    assert(rot13_chars(rot13_chars(s)) =~= s);
}

} // verus!
