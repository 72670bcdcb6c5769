//! The closed set of cipher algorithms and its name parsing.

use crate::text::string_of_chars;
use vstd::prelude::*;

verus! {

/// The supported cipher algorithms.
#[derive(Debug, Clone, Copy, PartialEq, Eq, Structural)]
pub enum Algorithm {
    Plain,
    Xor,
    Caesar,
    Rot13,
    Aes,
}

/// An ASCII capital letter lowered; any other character left alone.
pub open spec fn ascii_lower_char(c: char) -> char {
    let u = c as u32;
    if 65 <= u <= 90 {
        (((u + 32) as u8) as char)
    } else {
        c
    }
}

/// A whole text with its ASCII capitals lowered.
pub open spec fn ascii_lower(s: Seq<char>) -> Seq<char> {
    Seq::new(s.len(), |i: int| ascii_lower_char(s[i]))
}

/// The algorithm a lowered name denotes, if any.
pub open spec fn algorithm_of_name(lower: Seq<char>) -> Option<Algorithm> {
    if lower == "none"@ {
        Some(Algorithm::Plain)
    } else if lower == "xor"@ {
        Some(Algorithm::Xor)
    } else if lower == "caesar"@ {
        Some(Algorithm::Caesar)
    } else if lower == "rot13"@ {
        Some(Algorithm::Rot13)
    } else if lower == "aes"@ {
        Some(Algorithm::Aes)
    } else {
        None
    }
}

/// Lowers a string's ASCII capitals.
fn ascii_lowercase(s: &str) -> (r: String)
    ensures
        r@ == ascii_lower(s@),
{
    let n = s.unicode_len();
    let mut chars: Vec<char> = Vec::new();
    for i in 0..n
        invariant
            n == s@.len(),
            chars@ == ascii_lower(s@).take(i as int),
    {
        let c = s.get_char(i);
        let u = c as u32;
        let lowered: char = if 65 <= u && u <= 90 {
            ((u + 32) as u8) as char
        } else {
            c
        };
        proof {
            assert(lowered == ascii_lower_char(s@[i as int]));
            assert(ascii_lower(s@).take(i as int).push(lowered) =~= ascii_lower(s@).take(i + 1));
        }
        chars.push(lowered);
    }
    proof {
        assert(ascii_lower(s@).take(n as int) =~= ascii_lower(s@));
    }
    string_of_chars(&chars)
}

/// Reads an algorithm name, case-insensitively for ASCII letters; an
/// unknown name is reported back in its lowered form.
pub fn algorithm_from_str(s: &str) -> (r: Result<Algorithm, String>)
    ensures
        match algorithm_of_name(ascii_lower(s@)) {
            Some(a) => r == Ok::<Algorithm, String>(a),
            None => r matches Err(e) && e@ == "Unsupported algorithm: "@ + ascii_lower(s@),
        },
{
    let lowered = ascii_lowercase(s);
    if lowered == String::from_str("none") {
        Ok(Algorithm::Plain)
    } else if lowered == String::from_str("xor") {
        Ok(Algorithm::Xor)
    } else if lowered == String::from_str("caesar") {
        Ok(Algorithm::Caesar)
    } else if lowered == String::from_str("rot13") {
        Ok(Algorithm::Rot13)
    } else if lowered == String::from_str("aes") {
        Ok(Algorithm::Aes)
    } else {
        let mut e = String::from_str("Unsupported algorithm: ");
        e.append(lowered.as_str());
        Err(e)
    }
}

impl core::str::FromStr for Algorithm {
    type Err = String;

    fn from_str(s: &str) -> Result<Algorithm, String> {
        algorithm_from_str(s)
    }
}

} // verus!
