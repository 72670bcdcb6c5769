//! The command-line surface's settings and their validation rules.
//!
//! The argument parser itself lives outside the verified library; what is
//! checked here is the policy over the parsed values: exactly one of
//! encrypt or decrypt must be chosen, a permuted walk needs a seed, and
//! the keyed ciphers need a key.

use crate::algorithm::Algorithm;
use vstd::prelude::*;

verus! {

/// The parsed command-line settings.
pub struct Args {
    /// Path to the input image.
    pub img: String,
    /// The message to embed, where one is given.
    pub msg: Option<String>,
    /// Path to the output image.
    pub out: String,
    /// The cipher to encrypt with, in embed mode.
    pub encrypt: Option<Algorithm>,
    /// The cipher to decrypt with, in extract mode.
    pub decrypt: Option<Algorithm>,
    /// The cipher key, where one is given.
    pub key: Option<String>,
    /// Whether to scatter pixels pseudo-randomly.
    pub prng: bool,
    /// The seed text for the scattering; empty means none given.
    pub seed: String,
    /// Whether to only report capacity and exit.
    pub analyze: bool,
}

/// The complaint raised when a keyed cipher is selected without a key.
pub open spec fn key_error_text(a: Algorithm) -> Seq<char> {
    if a == Algorithm::Xor {
        "Encryption algorithm 'Xor' requires a non-empty key."@
    } else if a == Algorithm::Caesar {
        "Encryption algorithm 'Caesar' requires a non-empty key."@
    } else {
        "Encryption algorithm 'Aes' requires a non-empty key."@
    }
}

/// The key rule for one selected algorithm: XOR, Caesar and AES demand a
/// key; the rest pass.
pub open spec fn key_rule(a: Algorithm, key: Option<String>, r: Result<(), String>) -> bool {
    if (a == Algorithm::Xor || a == Algorithm::Caesar || a == Algorithm::Aes) && key is None {
        r matches Err(e) && e@ == key_error_text(a)
    } else {
        r is Ok
    }
}

impl Args {
    /// The one algorithm the settings select: exactly one of the encrypt
    /// and decrypt options must be present.
    pub fn algorithm(&self) -> (r: Result<Algorithm, String>)
        ensures
            match (self.encrypt, self.decrypt) {
                (Some(e), None) => r == Ok::<Algorithm, String>(e),
                (None, Some(d)) => r == Ok::<Algorithm, String>(d),
                (Some(_), Some(_)) => (r matches Err(e) && e@
                    == "Cannot specify both --encrypt and --decrypt."@),
                (None, None) => (r matches Err(e) && e@
                    == "Either --encrypt or --decrypt must be specified."@),
            },
    {
        match (&self.encrypt, &self.decrypt) {
            (Some(e), None) => Ok(*e),
            (None, Some(d)) => Ok(*d),
            (Some(_), Some(_)) => Err("Cannot specify both --encrypt and --decrypt.".to_owned()),
            (None, None) => Err("Either --encrypt or --decrypt must be specified.".to_owned()),
        }
    }

    /// Checks the settings as a whole: a permuted walk needs a seed, the
    /// mode selection must be unambiguous, and keyed ciphers need a key.
    pub fn validate(&self) -> (r: Result<(), String>)
        ensures
            ({
                if self.prng && self.seed@.len() == 0 {
                    r matches Err(e) && e@
                        == "PRNG is enabled, but seed is missing. Provide a seed using --seed."@
                } else {
                    match (self.encrypt, self.decrypt) {
                        (Some(_), Some(_)) => (r matches Err(e) && e@
                            == "Cannot specify both --encrypt and --decrypt."@),
                        (None, None) => (r matches Err(e) && e@
                            == "Either --encrypt or --decrypt must be specified."@),
                        (Some(a), None) => key_rule(a, self.key, r),
                        (None, Some(a)) => key_rule(a, self.key, r),
                    }
                }
            }),
    {
        if self.prng && self.seed.as_str().is_empty() {
            return Err(
                "PRNG is enabled, but seed is missing. Provide a seed using --seed.".to_owned(),
            );
        }

        let algo = match self.algorithm() {
            Ok(a) => a,
            Err(e) => {
                return Err(e);
            },
        };

        let needs_key = match algo {
            Algorithm::Xor | Algorithm::Caesar | Algorithm::Aes => true,
            _ => false,
        };
        if needs_key && self.key.is_none() {
            let text = match algo {
                Algorithm::Xor => "Encryption algorithm 'Xor' requires a non-empty key.",
                Algorithm::Caesar => "Encryption algorithm 'Caesar' requires a non-empty key.",
                _ => "Encryption algorithm 'Aes' requires a non-empty key.",
            };
            return Err(text.to_owned());
        }

        Ok(())
    }
}

} // verus!
