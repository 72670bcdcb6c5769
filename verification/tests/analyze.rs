use cryimg::algorithm::Algorithm;
use cryimg::analyze::analyze_capacity;

#[test]
fn analyze_test_capacity_none() {
    let message = "Hello, World!";
    let algorithm = Algorithm::Plain;
    let key = "";

    let report = analyze_capacity(10, 10, 3, message, algorithm, key).unwrap();

    assert_eq!(report.image_dimensions, (10, 10));
    assert_eq!(report.max_capacity_bytes, 300 / 8 as usize);
    assert_eq!(report.input_text_len, 13);
    assert_eq!(report.encrypted_len, None);
    assert_eq!(report.algorithm, Algorithm::Plain);
    assert!(report.can_fit);
}

#[test]
fn analyze_test_capacity_xor() {
    let message = "Secret Message";
    let algorithm = Algorithm::Xor;
    let key = "mysecretkey";

    let report = analyze_capacity(10, 10, 3, message, algorithm, key).unwrap();

    assert_eq!(report.image_dimensions, (10, 10));
    assert_eq!(report.max_capacity_bytes, 300 / 8 as usize);
    assert_eq!(report.input_text_len, 14);
    assert!(report.encrypted_len.is_some());
    assert_eq!(report.algorithm, Algorithm::Xor);
    assert!(report.can_fit);
}

#[test]
fn analyze_test_capacity_aes() {
    let message = "Secret Message";
    let algorithm = Algorithm::Aes;
    let key = "mysecretkey";

    let report = analyze_capacity(10, 10, 3, message, algorithm, key).unwrap();

    assert_eq!(report.image_dimensions, (10, 10));
    assert_eq!(report.max_capacity_bytes, 300 / 8 as usize);
    assert_eq!(report.input_text_len, 14);
    assert_eq!(report.encrypted_len, Some(44));
    assert_eq!(report.algorithm, Algorithm::Aes);
    assert!(!report.can_fit);
}

#[test]
fn analyze_test_capacity_aes_long_message() {
    let message = "This is a very long message that exceeds the capacity of the image.";
    let algorithm = Algorithm::Aes;
    let key = "mysecretkey";

    let report = analyze_capacity(10, 10, 3, message, algorithm, key).unwrap();

    assert_eq!(report.image_dimensions, (10, 10));
    assert_eq!(report.max_capacity_bytes, 300 / 8 as usize);
    assert_eq!(report.input_text_len, message.len());
    assert!(report.encrypted_len.is_some());
    assert_eq!(report.algorithm, Algorithm::Aes);
    assert!(!report.can_fit);
}

#[test]
fn analyze_test_capacity_xor_long_message() {
    let message = "This is a very long message that exceeds the capacity of the image.";
    let algorithm = Algorithm::Xor;
    let key = "mysecretkey";

    let report = analyze_capacity(10, 10, 3, message, algorithm, key).unwrap();

    assert_eq!(report.image_dimensions, (10, 10));
    assert_eq!(report.max_capacity_bytes, 300 / 8 as usize);
    assert_eq!(report.input_text_len, message.len());
    assert!(report.encrypted_len.is_some());
    assert_eq!(report.algorithm, Algorithm::Xor);
    assert!(!report.can_fit);
}

#[test]
fn with_stegno_analyze_analyze_test_capacity_none() {
    let message = "Hello, World!";
    let report = analyze_capacity(10, 10, 3, message, Algorithm::Plain, "").unwrap();
    assert_eq!(report.image_dimensions, (10, 10));
    assert_eq!(report.max_capacity_bytes, 300 / 8 as usize);
    assert_eq!(report.input_text_len, 13);
    assert_eq!(report.encrypted_len, None);
    assert_eq!(report.algorithm, Algorithm::Plain);
    assert!(report.can_fit);
}

#[test]
fn with_stegno_analyze_analyze_test_capacity_xor() {
    let message = "Secret Message";
    let report = analyze_capacity(10, 10, 3, message, Algorithm::Xor, "mysecretkey").unwrap();
    assert_eq!(report.image_dimensions, (10, 10));
    assert_eq!(report.max_capacity_bytes, 300 / 8 as usize);
    assert_eq!(report.input_text_len, 14);
    assert!(report.encrypted_len.is_some());
    assert_eq!(report.algorithm, Algorithm::Xor);
    assert!(report.can_fit);
}

#[test]
fn with_stegno_analyze_analyze_test_capacity_aes() {
    let message = "Secret Message";
    let report = analyze_capacity(10, 10, 3, message, Algorithm::Aes, "mysecretkey").unwrap();
    assert_eq!(report.image_dimensions, (10, 10));
    assert_eq!(report.max_capacity_bytes, 300 / 8 as usize);
    assert_eq!(report.input_text_len, 14);
    assert_eq!(report.encrypted_len, Some(44));
    assert_eq!(report.algorithm, Algorithm::Aes);
    assert!(!report.can_fit);
}

#[test]
fn with_stegno_analyze_analyze_test_capacity_aes_long_message() {
    let message = "This is a very long message that exceeds the capacity of the image.";
    let report = analyze_capacity(10, 10, 3, message, Algorithm::Aes, "mysecretkey").unwrap();
    assert_eq!(report.image_dimensions, (10, 10));
    assert_eq!(report.max_capacity_bytes, 300 / 8 as usize);
    assert_eq!(report.input_text_len, message.len());
    assert!(report.encrypted_len.is_some());
    assert_eq!(report.algorithm, Algorithm::Aes);
    assert!(!report.can_fit);
}

#[test]
fn with_stegno_analyze_analyze_test_capacity_xor_long_message() {
    let message = "This is a very long message that exceeds the capacity of the image.";
    let report = analyze_capacity(10, 10, 3, message, Algorithm::Xor, "mysecretkey").unwrap();
    assert_eq!(report.image_dimensions, (10, 10));
    assert_eq!(report.max_capacity_bytes, 300 / 8 as usize);
    assert_eq!(report.input_text_len, message.len());
    assert!(report.encrypted_len.is_some());
    assert_eq!(report.algorithm, Algorithm::Xor);
    assert!(!report.can_fit);
}

#[test]
fn analyze_capacity_boundary() {
    // A 10x10 RGB canvas offers 300 bits, so 37 whole bytes.  With the
    // four header bytes, a 33-byte message fills it exactly and a
    // 34-byte message overflows it.
    let fits = "A".repeat(33);
    let report = analyze_capacity(10, 10, 3, &fits, Algorithm::Plain, "").unwrap();
    assert_eq!(report.max_capacity_bytes, 37);
    assert_eq!(report.total_payload_bytes, 37);
    assert!(report.can_fit);

    let overflows = "A".repeat(34);
    let report = analyze_capacity(10, 10, 3, &overflows, Algorithm::Plain, "").unwrap();
    assert_eq!(report.total_payload_bytes, 38);
    assert!(!report.can_fit);
}

#[test]
fn analyze_xor_exact_encrypted_len() {
    // 14 bytes base64-encode to 4 * ceil(14 / 3) = 20 characters.
    let report = analyze_capacity(10, 10, 3, "Secret Message", Algorithm::Xor, "mysecretkey")
        .unwrap();
    assert_eq!(report.encrypted_len, Some(20));
    assert_eq!(report.total_payload_bytes, 24);
    assert_eq!(report.prefix_overhead_bytes, 4);
}

#[test]
fn analyze_propagates_cipher_errors() {
    let r = analyze_capacity(10, 10, 3, "hi", Algorithm::Xor, "");
    assert_eq!(r.unwrap_err(), "XOR encryption requires a non-empty key");

    let r = analyze_capacity(10, 10, 3, "hi", Algorithm::Caesar, "not-a-number");
    assert_eq!(r.unwrap_err(), "Key must be a number for Caesar cipher");
}

#[test]
fn scenario_reports_exact_totals() {
    // "Hello, World!" with no cipher: 13 + 4 = 17 of 37 bytes.
    let rep = analyze_capacity(10, 10, 3, "Hello, World!", Algorithm::Plain, "").unwrap();
    assert_eq!(rep.max_capacity_bytes, 37);
    assert_eq!(rep.total_payload_bytes, 17);
    assert!(rep.can_fit);

    // "Secret Message" under AES: 44 + 4 = 48 of 37 bytes.
    let rep = analyze_capacity(10, 10, 3, "Secret Message", Algorithm::Aes, "mysecretkey").unwrap();
    assert_eq!(rep.encrypted_len, Some(44));
    assert_eq!(rep.total_payload_bytes, 48);
    assert!(!rep.can_fit);
}

#[test]
fn analyze_rgba_canvas() {
    // Four channels raise the capacity to 400 bits: 50 bytes.
    let report = analyze_capacity(10, 10, 4, "Hello, World!", Algorithm::Plain, "").unwrap();
    assert_eq!(report.max_capacity_bytes, 50);
    assert_eq!(report.total_payload_bytes, 17);
    assert!(report.can_fit);
}
