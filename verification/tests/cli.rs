use std::str::FromStr;

use cryimg::algorithm::Algorithm;
use cryimg::cli::Args;

fn base_args() -> Args {
    Args {
        img: "test.png".to_string(),
        msg: Some("Hello, World!".to_string()),
        out: "output.png".to_string(),
        encrypt: None,
        decrypt: None,
        key: None,
        prng: false,
        seed: String::new(),
        analyze: false,
    }
}

#[test]
fn cli_missing_key_for_xor() {
    let mut args = base_args();
    args.msg = Some("Oops".to_string());
    args.encrypt = Some(Algorithm::Xor);
    let result = args.validate();
    assert!(result.is_err());
    assert_eq!(result.unwrap_err(), "Encryption algorithm 'Xor' requires a non-empty key.");
}

#[test]
fn cli_prng_without_seed() {
    let mut args = base_args();
    args.msg = Some("Oops".to_string());
    args.prng = true;
    args.encrypt = Some(Algorithm::Plain);
    let result = args.validate();
    assert!(result.is_err());
    assert_eq!(
        result.unwrap_err(),
        "PRNG is enabled, but seed is missing. Provide a seed using --seed."
    );
}

#[test]
fn cli_invalid_algorithm() {
    let result = Algorithm::from_str("invalid_algo");
    assert!(result.is_err());
    let err = result.unwrap_err();
    assert!(err.contains("Unsupported algorithm: invalid_algo"));
}

#[test]
fn cli_both_encrypt_and_decrypt() {
    // The command-line front end keeps encrypt and decrypt mutually
    // exclusive through an argument group; built here with clap's
    // builder the way the binary declares it.
    let cmd = clap::Command::new("cimg")
        .arg(clap::Arg::new("img").short('i').long("img"))
        .arg(clap::Arg::new("msg").short('m').long("msg"))
        .arg(clap::Arg::new("encrypt").short('e').long("encrypt").value_name("ENCRYPT"))
        .arg(clap::Arg::new("decrypt").short('d').long("decrypt").value_name("DECRYPT"))
        .group(
            clap::ArgGroup::new("mode")
                .required(true)
                .args(["encrypt", "decrypt"])
                .multiple(false),
        );
    let result = cmd.try_get_matches_from([
        "--img",
        "test.png",
        "--msg",
        "Conflicting Options",
        "--encrypt",
        "xor",
        "--decrypt",
        "aes",
    ]);
    assert!(result.is_err());
    assert!(result.unwrap_err().to_string().contains("<--encrypt <ENCRYPT>|--decrypt <DECRYPT>>"));
}

#[test]
fn args_algorithm_selection() {
    let mut args = base_args();
    args.encrypt = Some(Algorithm::Aes);
    assert_eq!(args.algorithm().unwrap(), Algorithm::Aes);

    let mut args = base_args();
    args.decrypt = Some(Algorithm::Xor);
    assert_eq!(args.algorithm().unwrap(), Algorithm::Xor);

    let mut args = base_args();
    args.encrypt = Some(Algorithm::Xor);
    args.decrypt = Some(Algorithm::Aes);
    assert_eq!(
        args.algorithm().unwrap_err(),
        "Cannot specify both --encrypt and --decrypt."
    );

    let args = base_args();
    assert_eq!(
        args.algorithm().unwrap_err(),
        "Either --encrypt or --decrypt must be specified."
    );
}

#[test]
fn validate_passes_without_key_for_keyless_ciphers() {
    let mut args = base_args();
    args.encrypt = Some(Algorithm::Rot13);
    assert!(args.validate().is_ok());

    let mut args = base_args();
    args.encrypt = Some(Algorithm::Plain);
    assert!(args.validate().is_ok());
}

#[test]
fn validate_accepts_keyed_cipher_with_key() {
    let mut args = base_args();
    args.encrypt = Some(Algorithm::Aes);
    args.key = Some("mysecretkey".to_string());
    args.prng = true;
    args.seed = "54321".to_string();
    assert!(args.validate().is_ok());
}

#[test]
fn validate_missing_key_messages() {
    let mut args = base_args();
    args.decrypt = Some(Algorithm::Caesar);
    assert_eq!(
        args.validate().unwrap_err(),
        "Encryption algorithm 'Caesar' requires a non-empty key."
    );

    let mut args = base_args();
    args.decrypt = Some(Algorithm::Aes);
    assert_eq!(
        args.validate().unwrap_err(),
        "Encryption algorithm 'Aes' requires a non-empty key."
    );
}
