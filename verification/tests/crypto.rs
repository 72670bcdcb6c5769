use std::str::FromStr;

use cryimg::algorithm::Algorithm;
use cryimg::decrypt::aes_decrypt;
use cryimg::decrypt::caesar_decrypt;
use cryimg::decrypt::decrypt_message;
use cryimg::decrypt::rot13_decrypt;
use cryimg::decrypt::xor_decrypt;
use cryimg::encrypt::aes_encrypt;
use cryimg::encrypt::caesar_encrypt;
use cryimg::encrypt::encrypt_message;
use cryimg::encrypt::rot13_encrypt;
use cryimg::encrypt::xor_encrypt;

#[test]
fn crypto_encrypt_decrypt_aes() {
    let msg = "Hello, World!";
    let key = "mysecretkey";
    let algo = Algorithm::Aes;

    let encrypted = encrypt_message(msg, key, algo).unwrap();
    let decrypted = decrypt_message(&encrypted, key, algo).unwrap();

    assert_eq!(decrypted, msg);
}

#[test]
fn crypto_encrypt_decrypt_xor() {
    let msg = "Hello, World!";
    let key = "key";
    let algo = Algorithm::Xor;

    let encrypted = encrypt_message(msg, key, algo).unwrap();
    let decrypted = decrypt_message(&encrypted, key, algo).unwrap();

    assert_eq!(decrypted, msg);
}

#[test]
fn crypto_encrypt_decrypt_caesar() {
    let msg = "Hello, World!";
    let key = "3"; // Shift by 3
    let algo = Algorithm::Caesar;

    let encrypted = encrypt_message(msg, key, algo).unwrap();
    let decrypted = decrypt_message(&encrypted, key, algo).unwrap();

    assert_eq!(decrypted, msg);
}

#[test]
fn crypto_encrypt_decrypt_rot13() {
    let msg = "Hello, World!";
    let algo = Algorithm::Rot13;

    let encrypted = encrypt_message(msg, "", algo).unwrap();
    let decrypted = decrypt_message(&encrypted, "", algo).unwrap();

    assert_eq!(decrypted, msg);
}

#[test]
fn crypto_encrypt_decrypt_none() {
    let msg = "Hello, World!";
    let algo = Algorithm::Plain;

    let encrypted = encrypt_message(msg, "", algo).unwrap();
    let decrypted = decrypt_message(&encrypted, "", algo).unwrap();

    assert_eq!(decrypted, msg);
}

#[test]
fn crypto_invalid_algorithm() -> Result<(), String> {
    match Algorithm::from_str("invalid") {
        Ok(algorithm) => {
            panic!("Expected error for invalid algorithm, but got: {:?}", algorithm);
        }
        Err(e) => {
            println!("Caught expected error: {e}");
            Ok(())
        }
    }
}

#[test]
fn crypto_encrypt_with_empty_key() {
    let msg = "Hello, World!";
    let algo = Algorithm::Xor;

    let encrypted = encrypt_message(msg, "", algo);
    assert!(encrypted.is_err());
    assert_eq!(encrypted.unwrap_err(), "XOR encryption requires a non-empty key");
}

#[test]
fn crypto_decrypt_with_empty_key() {
    let msg = "Hello, World!";
    let key = "secret";
    let algo = Algorithm::Xor;

    // First encrypt with a valid key
    let encrypted = encrypt_message(msg, key, algo).unwrap();

    // Now attempt to decrypt with an empty key
    let decrypted = decrypt_message(&encrypted, "", algo);
    assert!(decrypted.is_err());
    assert_eq!(decrypted.unwrap_err(), "XOR decryption requires a non-empty key");
}

#[test]
fn crypto_caesar_encrypt_invalid_key() {
    let msg = "Hello, World!";
    let key = "invalid"; // Non-numeric key
    let algo = Algorithm::Caesar;

    let encrypted = encrypt_message(msg, key, algo);
    assert!(encrypted.is_err());
    assert_eq!(encrypted.unwrap_err(), "Key must be a number for Caesar cipher");

    let decrypted = decrypt_message(msg, key, algo);
    assert!(decrypted.is_err());
    assert_eq!(decrypted.unwrap_err(), "Key must be a number for Caesar cipher");
}

#[test]
fn decrypt_xor_decrypt() {
    let msg = "Hello, World!";
    let key = "key";
    let encrypted = xor_encrypt(msg, key).unwrap();
    let decrypted = xor_decrypt(&encrypted, key).unwrap();
    assert_eq!(decrypted, msg);
}

#[test]
fn decrypt_caesar_decrypt() {
    let msg = "Khoor, Zruog!";
    let key = "3";
    let decrypted = caesar_decrypt(msg, key).unwrap();
    assert_eq!(decrypted, "Hello, World!");
}

#[test]
fn decrypt_rot13_decrypt() {
    let msg = "Uryyb, Jbeyq!";
    let decrypted = rot13_decrypt(msg).unwrap();
    assert_eq!(decrypted, "Hello, World!");
}

#[test]
fn decrypt_aes_decrypt() {
    let msg = "Hello, World!";
    let key = "mysecretkey";
    let encrypted = aes_encrypt(msg, key).unwrap();
    let decrypted = aes_decrypt(&encrypted, key).unwrap();
    assert_eq!(decrypted, msg);
}

#[test]
fn decrypt_xor_decrypt_empty_key() {
    let msg = "Hello, World!";
    let encrypted = aes_encrypt(msg, "mysecretkey").unwrap();
    let key = "";
    let result = xor_decrypt(&encrypted, key);
    assert!(result.is_err());
    assert_eq!(result.unwrap_err(), "XOR decryption requires a non-empty key");
}

#[test]
fn decrypt_caesar_decrypt_invalid_key() {
    let msg = "Khoor, Zruog!";
    let key = "invalid";
    let result = caesar_decrypt(msg, key);
    assert!(result.is_err());
    assert_eq!(result.err().unwrap(), "Key must be a number for Caesar cipher");
}

#[test]
fn test_xor_encrypt() {
    let msg = "Hello, World!";
    let key = "key";
    let encrypted = xor_encrypt(msg, key).unwrap();
    let decrypted = xor_decrypt(&encrypted, key).unwrap();
    assert_eq!(decrypted, msg);
}

#[test]
fn test_caesar_encrypt() {
    let msg = "Hello, World!";
    let key = "3";
    let encrypted = caesar_encrypt(msg, key).unwrap();
    let decrypted = caesar_decrypt(&encrypted, key).unwrap();
    assert_eq!(decrypted, msg);
}

#[test]
fn test_rot13_encrypt() {
    let msg = "Hello, World!";
    let encrypted = rot13_encrypt(msg);
    let decrypted = rot13_decrypt(&encrypted).unwrap();
    assert_eq!(decrypted, msg);
}

#[test]
fn test_xor_encrypt_empty_key() {
    let msg = "Hello, World!";
    let key = "";
    let result = xor_encrypt(msg, key);
    assert!(result.is_err());
    assert_eq!(result.err().unwrap(), "XOR encryption requires a non-empty key");
}

#[test]
fn test_caesar_encrypt_invalid_key() {
    let msg = "Hello, World!";
    let key = "invalid";
    let result = caesar_encrypt(msg, key);
    assert!(result.is_err());
    assert_eq!(result.err().unwrap(), "Key must be a number for Caesar cipher");
}

#[test]
fn test_aes_encrypt() {
    let msg = "Hello, World!";
    let key = "mysecretkey";
    let encrypted = aes_encrypt(msg, key).unwrap();
    let decrypted = aes_decrypt(&encrypted, key).unwrap();
    assert_eq!(decrypted, msg);
}

#[test]
fn caesar_exact_values() {
    // Shift by 3, preserving case and punctuation.
    assert_eq!(caesar_encrypt("Hello, World!", "3").unwrap(), "Khoor, Zruog!");
    // A shift past the alphabet wraps: 27 acts like 1.
    assert_eq!(caesar_encrypt("abcz", "27").unwrap(), "bcda");
    // A leading plus sign parses like the bare number.
    assert_eq!(caesar_encrypt("abc", "+3").unwrap(), caesar_encrypt("abc", "3").unwrap());
    // 256 does not fit in a byte.
    assert!(caesar_encrypt("abc", "256").is_err());
    // Decryption rotates back even for shifts past the alphabet.
    assert_eq!(caesar_decrypt("bcda", "27").unwrap(), "abcz");
}

#[test]
fn rot13_exact_values() {
    assert_eq!(rot13_encrypt("Hello, World!"), "Uryyb, Jbeyq!");
    assert_eq!(rot13_encrypt("Uryyb, Jbeyq!"), "Hello, World!");
}

#[test]
fn xor_decrypt_rejects_bad_base64() {
    let result = xor_decrypt("!!!", "key");
    assert!(result.is_err());
    assert_eq!(result.unwrap_err(), "Failed to decode base64");
}

#[test]
fn xor_decrypt_rejects_invalid_utf8() {
    // "/w==" is the base64 of the single byte 0xff; XORed with 'k' it
    // yields 0x94, which no UTF-8 text contains.
    let result = xor_decrypt("/w==", "k");
    assert!(result.is_err());
    assert_eq!(result.unwrap_err(), "Invalid UTF-8 in decrypted XOR message");
}

#[test]
fn aes_decrypt_rejects_short_data() {
    // Eight zero bytes: valid base64, but too short to hold the
    // 16-byte initialization vector.
    let result = aes_decrypt("AAAAAAAAAAA=", "mysecretkey");
    assert!(result.is_err());
    assert_eq!(result.unwrap_err(), "Data too short to contain IV");
}

#[test]
fn aes_decrypt_wrong_key_fails_or_differs() {
    let msg = "Hello, World!";
    let encrypted = aes_encrypt(msg, "mysecretkey").unwrap();
    let result = aes_decrypt(&encrypted, "anotherkey");
    assert!(result.is_err() || result.unwrap() != msg);
}

#[test]
fn aes_encrypt_empty_key_rejected() {
    let result = aes_encrypt("Hello", "");
    assert!(result.is_err());
    assert_eq!(result.unwrap_err(), "AES encryption requires a non-empty key");
    let result = aes_decrypt("AAAAAAAAAAA=", "");
    assert!(result.is_err());
    assert_eq!(result.unwrap_err(), "AES decryption requires a non-empty key");
}

#[test]
fn algorithm_names_parse_case_insensitively() {
    assert_eq!(Algorithm::from_str("AES").unwrap(), Algorithm::Aes);
    assert_eq!(Algorithm::from_str("None").unwrap(), Algorithm::Plain);
    assert_eq!(Algorithm::from_str("rot13").unwrap(), Algorithm::Rot13);
    assert_eq!(Algorithm::from_str("XoR").unwrap(), Algorithm::Xor);
    assert_eq!(Algorithm::from_str("caesar").unwrap(), Algorithm::Caesar);
    let err = Algorithm::from_str("Invalid_Algo").unwrap_err();
    assert_eq!(err, "Unsupported algorithm: invalid_algo");
}
