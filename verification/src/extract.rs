//! Reading a payload back out of a grid's channel bits.
//!
//! Extraction does not know where the embedder stopped, so it reads the
//! least-significant bit of every channel byte along the full walk and
//! lets the 32-bit length header say how much of the stream is payload;
//! trailing bits read from untouched pixels are discarded by the framing
//! layer.  Walking the same order that embedded the payload therefore
//! recovers it exactly, whatever trails behind it.

use crate::bits::bits_to_bytes;
use crate::bits::bits_to_message;
use crate::bits::bits_to_u32;
use crate::bits::bits_value;
use crate::bits::frame_bits;
use crate::bits::lemma_bytes_to_bits_len;
use crate::bits::lemma_num_bits_len;
use crate::bits::lemma_unframe_of_framed;
use crate::bits::unframe_bits;
use crate::embed::embed_bits;
use crate::embed::lemma_embed_bits_effect;
use crate::embed::lemma_slot_index_bounds;
use crate::embed::slot_index;
use crate::grid::lsb;
use crate::grid::PixelGrid;
use crate::order::chosen_order;
use crate::order::covers_grid;
use crate::order::permuted_order;
use crate::order::sequential_order;
use crate::text::bytes_as_chars;
use vstd::arithmetic::power2::pow2;
use vstd::prelude::*;
use vstd::slice::slice_subrange;

verus! {

/// Every least-significant bit of the grid, in walk order: bit k of the
/// stream is the low bit of the byte slot k names.
pub open spec fn grid_lsb_bits(
    data: Seq<u8>,
    order: Seq<(u32, u32)>,
    width: nat,
    channels: nat,
) -> Seq<bool> {
    Seq::new(
        order.len() * channels,
        |k: int| lsb(data[slot_index(order, width as int, channels as int, k)]),
    )
}

/// Round trip: embedding a framed payload and then reading the stream
/// back along the same walk yields exactly that payload, no matter what
/// the untouched pixels hold.
pub proof fn lemma_embed_extract_round_trip(
    data: Seq<u8>,
    order: Seq<(u32, u32)>,
    width: nat,
    height: nat,
    channels: nat,
    payload: Seq<u8>,
)
    requires
        covers_grid(order, width, height),
        1 <= channels,
        data.len() == width * height * channels,
        32 + 8 * payload.len() <= order.len() * channels,
        8 * payload.len() < pow2(32),
    ensures
        unframe_bits(
            grid_lsb_bits(
                embed_bits(data, order, width as int, channels as int, frame_bits(payload)),
                order,
                width,
                channels,
            ),
        ) == Some(payload),
{
    let frame = frame_bits(payload);
    lemma_num_bits_len(8 * payload.len() as int, 32);
    lemma_bytes_to_bits_len(payload);
    assert(frame.len() == 32 + 8 * payload.len());
    lemma_embed_bits_effect(data, order, width, height, channels, frame);
    let result = embed_bits(data, order, width as int, channels as int, frame);
    let stream = grid_lsb_bits(result, order, width, channels);
    assert(stream.len() == order.len() * channels);
    assert forall|k: int| 0 <= k < frame.len() implies stream[k] == frame[k] by {
        lemma_slot_index_bounds(order, width, height, channels, k);
        assert(stream[k] == lsb(result[slot_index(order, width as int, channels as int, k)]));
    }
    assert(stream.subrange(0, frame.len() as int) =~= frame);
    lemma_unframe_of_framed(payload, stream);
}

/// Round trip at the text level: after embedding an ASCII message's
/// framed bytes, the stream read back along the same walk satisfies the
/// extractor's success contract with exactly that message as the
/// recovered text — code-point extraction is lossless on ASCII.
pub proof fn lemma_round_trip_ascii_text(
    data: Seq<u8>,
    order: Seq<(u32, u32)>,
    width: nat,
    height: nat,
    channels: nat,
    msg: Seq<char>,
)
    requires
        covers_grid(order, width, height),
        1 <= channels,
        data.len() == width * height * channels,
        32 + 8 * vstd::utf8::encode_utf8(msg).len() <= order.len() * channels,
        8 * vstd::utf8::encode_utf8(msg).len() < pow2(32),
        vstd::utf8::is_ascii_chars(msg),
    ensures
        ({
            let stream = grid_lsb_bits(
                embed_bits(
                    data,
                    order,
                    width as int,
                    channels as int,
                    frame_bits(vstd::utf8::encode_utf8(msg)),
                ),
                order,
                width,
                channels,
            );
            &&& stream.len() >= 32
            &&& stream.len() >= 32 + bits_value(stream.take(32))
            &&& bytes_as_chars(
                bits_to_bytes(stream.subrange(32, 32 + bits_value(stream.take(32)))),
            ) == msg
        }),
{
    let payload = vstd::utf8::encode_utf8(msg);
    lemma_embed_extract_round_trip(data, order, width, height, channels, payload);
    let stream = grid_lsb_bits(
        embed_bits(data, order, width as int, channels as int, frame_bits(payload)),
        order,
        width,
        channels,
    );
    assert(unframe_bits(stream) == Some(payload));
    assert(stream.len() >= 32);
    let n = bits_value(stream.take(32));
    assert(stream.len() >= 32 + n);
    assert(bits_to_bytes(stream.subrange(32, 32 + n)) == payload);
    crate::text::lemma_ascii_bytes_as_chars(msg);
}

/// Recovers the embedded message from the grid: reads every channel's
/// least-significant bit along the chosen order, then unframes.  The
/// declared payload is mapped byte-for-byte to character code points.
pub fn extract_message(grid: &PixelGrid, use_prng: bool, seed: Option<u64>) -> (r: Result<
    String,
    String,
>)
    requires
        grid.wf(),
    ensures
        ({
            let w = grid.spec_width() as nat;
            let h = grid.spec_height() as nat;
            let c = grid.spec_channels() as nat;
            let stream = grid_lsb_bits(grid.spec_data(), chosen_order(w, h, use_prng, seed), w, c);
            if use_prng && seed is None {
                r matches Err(e) && e@ == "PRNG selected but no seed provided"@
            } else if stream.len() < 32 {
                r matches Err(e) && e@ == "Invalid length prefix"@
            } else if stream.len() < 32 + bits_value(stream.take(32)) {
                r matches Err(e) && e@ == "Declared message length exceeds extracted bits"@
            } else {
                r matches Ok(m) && m@ == bytes_as_chars(
                    bits_to_bytes(stream.subrange(32, 32 + bits_value(stream.take(32)))),
                )
            }
        }),
{
    let width = grid.width();
    let height = grid.height();
    let channels = grid.channels();
    let ghost w = width as nat;
    let ghost h = height as nat;
    let ghost c = channels as nat;
    let total = grid.data().len();

    proof {
        assert(w * h <= w * h * c) by (nonlinear_arith)
            requires
                c >= 1,
                w >= 0,
                h >= 0,
        ;
    }
    let positions: Vec<(u32, u32)> = if use_prng {
        match seed {
            Some(s) => permuted_order(width, height, s),
            None => {
                return Err("PRNG selected but no seed provided".to_owned());
            },
        }
    } else {
        sequential_order(width, height)
    };
    let ghost order = chosen_order(w, h, use_prng, seed);
    let ghost stream = grid_lsb_bits(grid.spec_data(), order, w, c);
    proof {
        assert(positions@ == order);
        assert(positions@.len() * c == w * h * c) by (nonlinear_arith)
            requires
                positions@.len() == w * h,
        ;
        assert(stream.len() == total);
    }

    let c_us = channels as usize;
    let mut bits: Vec<bool> = Vec::new();
    for k in 0..total
        invariant
            grid.wf(),
            grid.spec_width() == width,
            grid.spec_height() == height,
            grid.spec_channels() == channels,
            w == width as nat,
            h == height as nat,
            c == channels as nat,
            c_us == channels as usize,
            covers_grid(positions@, w, h),
            positions@ == order,
            total == grid.spec_data().len(),
            total == w * h * c,
            positions@.len() * c == total,
            stream == grid_lsb_bits(grid.spec_data(), order, w, c),
            stream.len() == total,
            bits@.len() == k,
            forall|j: int| 0 <= j < k ==> bits@[j] == stream[j],
    {
        proof {
            lemma_slot_index_bounds(positions@, w, h, c, k as int);
        }
        let p = k / c_us;
        let ch = (k % c_us) as u8;
        let pos = positions[p];
        let b = grid.get_channel(pos.0, pos.1, ch);
        bits.push((b & 1) == 1);
        proof {
            assert(stream[k as int] == lsb(grid.spec_data()[slot_index(
                positions@,
                w as int,
                c as int,
                k as int,
            )]));
        }
    }
    proof {
        assert(bits@ =~= stream);
    }

    if bits.len() < 32 {
        return Err("Invalid length prefix".to_owned());
    }
    let len_slice = slice_subrange(bits.as_slice(), 0, 32);
    proof {
        assert(len_slice@ =~= stream.take(32));
    }
    let msg_len: u32 = match bits_to_u32(len_slice) {
        Ok(v) => v,
        Err(e) => {
            return Err(e);
        },
    };

    if (msg_len as u64) + 32 > (bits.len() as u64) {
        return Err("Declared message length exceeds extracted bits".to_owned());
    }
    let end: usize = 32 + (msg_len as usize);
    let msg_slice = slice_subrange(bits.as_slice(), 32, end);
    proof {
        assert(msg_slice@ =~= stream.subrange(32, 32 + bits_value(stream.take(32))));
    }
    Ok(bits_to_message(msg_slice))
}

} // verus!
