//! The capacity model: will a payload fit before anything is written?
//!
//! Every channel byte hides one bit, so a width-by-height canvas with
//! `channels` channels offers `width * height * channels` bits, of which
//! only whole bytes count.  The framing header costs four bytes on top of
//! the (possibly encrypted) payload.  The verdict here is pure
//! arithmetic: no pixel is touched.

use crate::algorithm::Algorithm;
use crate::crypto::aes_encoded_len;
use crate::crypto::lemma_caesar_len;
use crate::crypto::parse_shift;
use crate::encrypt::encrypt_message;
use vstd::arithmetic::div_mod::lemma_div_is_ordered_by_denominator;
use vstd::arithmetic::div_mod::lemma_fundamental_div_mod;
use vstd::prelude::*;
use vstd::utf8::encode_utf8;

verus! {

/// What one analysis run reports: the canvas, the capacity, the payload
/// sizes, and the verdict.
#[derive(Debug)]
pub struct AnalysisReport {
    pub image_dimensions: (u32, u32),
    pub max_capacity_bytes: usize,
    pub input_text_len: usize,
    pub encrypted_len: Option<usize>,
    pub prefix_overhead_bytes: usize,
    pub total_payload_bytes: usize,
    pub algorithm: Algorithm,
    pub can_fit: bool,
}

/// The fields every successful report shares: the canvas and its
/// capacity, the raw input length, the fixed framing overhead, and a
/// verdict that restates the comparison of total against capacity.
pub open spec fn report_shape(
    rep: AnalysisReport,
    width: u32,
    height: u32,
    channels: u8,
    message: Seq<char>,
    algo: Algorithm,
) -> bool {
    &&& rep.image_dimensions == (width, height)
    &&& rep.max_capacity_bytes == ((width as int) * (height as int) * (channels as int)) / 8
    &&& rep.input_text_len == encode_utf8(message).len()
    &&& rep.prefix_overhead_bytes == 4
    &&& rep.algorithm == algo
    &&& rep.total_payload_bytes == (match rep.encrypted_len {
        Some(l) => l as int + 4,
        None => encode_utf8(message).len() as int + 4,
    })
    &&& rep.can_fit == (rep.total_payload_bytes <= rep.max_capacity_bytes)
}

/// Predicts whether the message, under the selected cipher, fits the
/// canvas: capacity is one bit per channel byte, rounded down to whole
/// bytes, against the transformed payload plus the four-byte header.
pub fn analyze_capacity(
    width: u32,
    height: u32,
    channels: u8,
    message: &str,
    algorithm: Algorithm,
    key: &str,
) -> (r: Result<AnalysisReport, String>)
    requires
        1 <= channels <= 4,
        (width as int) * (height as int) * (channels as int) <= u32::MAX as int,
        8 * encode_utf8(message@).len() <= usize::MAX as int,
    ensures
        ({
            let lbytes = encode_utf8(message@).len() as int;
            match algorithm {
                Algorithm::Plain => r matches Ok(rep) && report_shape(
                    rep,
                    width,
                    height,
                    channels,
                    message@,
                    algorithm,
                ) && rep.encrypted_len is None,
                Algorithm::Xor => {
                    if key@.len() == 0 {
                        r matches Err(e) && e@ == "XOR encryption requires a non-empty key"@
                    } else {
                        r matches Ok(rep) && report_shape(
                            rep,
                            width,
                            height,
                            channels,
                            message@,
                            algorithm,
                        ) && (rep.encrypted_len matches Some(l) && l == 4 * ((lbytes + 2) / 3))
                    }
                },
                Algorithm::Caesar => {
                    if parse_shift(key@) is None {
                        r matches Err(e) && e@ == "Key must be a number for Caesar cipher"@
                    } else {
                        r matches Ok(rep) && report_shape(
                            rep,
                            width,
                            height,
                            channels,
                            message@,
                            algorithm,
                        ) && (rep.encrypted_len matches Some(l) && l == lbytes)
                    }
                },
                Algorithm::Rot13 => r matches Ok(rep) && report_shape(
                    rep,
                    width,
                    height,
                    channels,
                    message@,
                    algorithm,
                ) && (rep.encrypted_len matches Some(l) && l == lbytes),
                Algorithm::Aes => {
                    if key@.len() == 0 {
                        r matches Err(e) && e@ == "AES encryption requires a non-empty key"@
                    } else {
                        r matches Ok(rep) && report_shape(
                            rep,
                            width,
                            height,
                            channels,
                            message@,
                            algorithm,
                        ) && (rep.encrypted_len matches Some(l) && l == aes_encoded_len(lbytes))
                    }
                },
            }
        }),
{
    proof {
        assert((width as int) * (height as int) <= (width as int) * (height as int) * (
        channels as int)) by (nonlinear_arith)
            requires
                (channels as int) >= 1,
                (width as int) >= 0,
                (height as int) >= 0,
        ;
    }
    let total_pixels: u32 = width * height;
    let max_capacity_bits: u32 = total_pixels * (channels as u32);
    let max_capacity_bytes: usize = (max_capacity_bits / 8) as usize;
    let prefix_overhead_bytes: usize = 4;

    let ghost lbytes = encode_utf8(message@).len() as int;
    let message_len: usize = message.len();

    let encrypted_len: Option<usize> = match algorithm {
        Algorithm::Plain => None,
        _ => {
            let encrypted = match encrypt_message(message, key, algorithm) {
                Ok(e) => e,
                Err(e) => {
                    return Err(e);
                },
            };
            proof {
                broadcast use vstd::utf8::is_ascii_chars_encode_utf8;

                match algorithm {
                    Algorithm::Xor => {
                        lemma_ceil_third_bound(lbytes + 2);
                        assert(encode_utf8(encrypted@).len() == encrypted@.len());
                    },
                    Algorithm::Caesar => {
                        let shift = parse_shift(key@)->0;
                        lemma_caesar_len(message@, shift);
                    },
                    Algorithm::Rot13 => {
                        lemma_caesar_len(message@, 13);
                    },
                    Algorithm::Aes => {
                        lemma_fundamental_div_mod(lbytes, 16);
                        lemma_ceil_third_bound(16 * (lbytes / 16 + 1) + 18);
                        assert(encode_utf8(encrypted@).len() == encrypted@.len());
                    },
                    Algorithm::Plain => {},
                }
            }
            Some(encrypted.as_str().len())
        },
    };

    let payload_len: usize = match encrypted_len {
        Some(enc_len) => enc_len + prefix_overhead_bytes,
        None => message_len + prefix_overhead_bytes,
    };

    Ok(
        AnalysisReport {
            image_dimensions: (width, height),
            max_capacity_bytes,
            input_text_len: message_len,
            encrypted_len,
            prefix_overhead_bytes,
            total_payload_bytes: payload_len,
            algorithm,
            can_fit: payload_len <= max_capacity_bytes,
        },
    )
}

/// Four times a third of a length stays within twice the length: enough
/// to rule out overflow in the base64 size arithmetic.
proof fn lemma_ceil_third_bound(x: int)
    requires
        x >= 0,
    ensures
        4 * (x / 3) <= 2 * x,
{
    lemma_div_is_ordered_by_denominator(x, 2, 3);
    lemma_fundamental_div_mod(x, 2);
}

} // verus!
