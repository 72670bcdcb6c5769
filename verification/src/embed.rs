//! Writing a framed payload into a grid's channel bits.
//!
//! The framed bit stream is laid into the least-significant bits of the
//! grid's channel bytes along the chosen pixel order: slot k of the walk
//! is channel k % channels of pixel k / channels.  Writing stops as soon
//! as the stream is exhausted, even mid-pixel; every untouched channel
//! byte, and the upper seven bits of every touched one, keep their values.
//! A payload that cannot fit is rejected before any byte is written.

use crate::bits::frame_bits;
use crate::bits::message_to_bits;
use crate::bits::push_u32_bits;
use crate::grid::chan_index;
use crate::grid::lemma_chan_index_bounds;
use crate::grid::lemma_chan_index_injective;
use crate::grid::lemma_set_lsb;
use crate::grid::lsb;
use crate::grid::set_lsb;
use crate::grid::PixelGrid;
use crate::order::chosen_order;
use crate::order::covers_grid;
use crate::order::permuted_order;
use crate::order::sequential_order;
use vstd::arithmetic::div_mod::lemma_div_pos_is_pos;
use vstd::arithmetic::div_mod::lemma_fundamental_div_mod;
use vstd::arithmetic::div_mod::lemma_multiply_divide_lt;
use vstd::prelude::*;
use vstd::utf8::encode_utf8;

verus! {

/// The grid byte that slot k of an order walk names: channel k % channels
/// of pixel order[k / channels].
pub open spec fn slot_index(order: Seq<(u32, u32)>, width: int, channels: int, k: int) -> int {
    chan_index(
        width,
        channels,
        order[k / channels].0 as int,
        order[k / channels].1 as int,
        k % channels,
    )
}

/// Every slot of a covering walk names a byte inside the grid.
pub proof fn lemma_slot_index_bounds(
    order: Seq<(u32, u32)>,
    width: nat,
    height: nat,
    channels: nat,
    k: int,
)
    requires
        covers_grid(order, width, height),
        1 <= channels,
        0 <= k < order.len() * channels,
    ensures
        0 <= slot_index(order, width as int, channels as int, k) < width * height * channels,
        0 <= k / (channels as int) < (order.len() as int),
        0 <= k % (channels as int) < (channels as int),
{
    let c = channels as int;
    lemma_multiply_divide_lt(k, c, order.len() as int);
    lemma_div_pos_is_pos(k, c);
    let p = order[k / c];
    lemma_chan_index_bounds(width as int, height as int, c, p.0 as int, p.1 as int, k % c);
}

/// Distinct slots of a covering walk name distinct bytes.
pub proof fn lemma_slot_index_injective(
    order: Seq<(u32, u32)>,
    width: nat,
    height: nat,
    channels: nat,
    k1: int,
    k2: int,
)
    requires
        covers_grid(order, width, height),
        1 <= channels,
        0 <= k1 < order.len() * channels,
        0 <= k2 < order.len() * channels,
        k1 != k2,
    ensures
        slot_index(order, width as int, channels as int, k1) != slot_index(
            order,
            width as int,
            channels as int,
            k2,
        ),
{
    let c = channels as int;
    lemma_slot_index_bounds(order, width, height, channels, k1);
    lemma_slot_index_bounds(order, width, height, channels, k2);
    let p1 = order[k1 / c];
    let p2 = order[k2 / c];
    if slot_index(order, width as int, c, k1) == slot_index(order, width as int, c, k2) {
        lemma_chan_index_injective(
            width as int,
            height as int,
            c,
            p1.0 as int,
            p1.1 as int,
            k1 % c,
            p2.0 as int,
            p2.1 as int,
            k2 % c,
        );
        assert(p1 == p2);
        if k1 / c != k2 / c {
            assert(order[k1 / c] != order[k2 / c]);
            assert(false);
        } else {
            lemma_fundamental_div_mod(k1, c);
            lemma_fundamental_div_mod(k2, c);
            assert(false);
        }
    }
}

/// The grid bytes after the first `bits.len()` slots of the walk have
/// their least-significant bits overwritten with `bits`, in slot order.
pub open spec fn embed_bits(
    data: Seq<u8>,
    order: Seq<(u32, u32)>,
    width: int,
    channels: int,
    bits: Seq<bool>,
) -> Seq<u8>
    decreases bits.len(),
{
    if bits.len() == 0 {
        data
    } else {
        let prev = embed_bits(data, order, width, channels, bits.drop_last());
        let i = slot_index(order, width, channels, bits.len() - 1);
        prev.update(i, set_lsb(prev[i], bits.last()))
    }
}

pub proof fn lemma_embed_bits_len(
    data: Seq<u8>,
    order: Seq<(u32, u32)>,
    width: nat,
    height: nat,
    channels: nat,
    bits: Seq<bool>,
)
    requires
        covers_grid(order, width, height),
        1 <= channels,
        data.len() == width * height * channels,
        bits.len() <= order.len() * channels,
    ensures
        embed_bits(data, order, width as int, channels as int, bits).len() == data.len(),
    decreases bits.len(),
{
    if bits.len() > 0 {
        lemma_embed_bits_len(data, order, width, height, channels, bits.drop_last());
        lemma_slot_index_bounds(order, width, height, channels, bits.len() - 1);
    }
}

/// What embedding leaves behind: slot k of the walk reads back bit k; a
/// slot past the stream keeps its whole byte; every byte keeps its upper
/// seven bits.
pub proof fn lemma_embed_bits_effect(
    data: Seq<u8>,
    order: Seq<(u32, u32)>,
    width: nat,
    height: nat,
    channels: nat,
    bits: Seq<bool>,
)
    requires
        covers_grid(order, width, height),
        1 <= channels,
        data.len() == width * height * channels,
        bits.len() <= order.len() * channels,
    ensures
        ({
            let result = embed_bits(data, order, width as int, channels as int, bits);
            &&& result.len() == data.len()
            &&& forall|k: int|
                0 <= k < bits.len() ==> lsb(
                    result[slot_index(order, width as int, channels as int, k)],
                ) == bits[k]
            &&& forall|k: int|
                bits.len() <= k < order.len() * channels ==> result[slot_index(
                    order,
                    width as int,
                    channels as int,
                    k,
                )] == data[slot_index(order, width as int, channels as int, k)]
            &&& forall|i: int| 0 <= i < data.len() ==> result[i] & 0xfe == data[i] & 0xfe
        }),
    decreases bits.len(),
{
    let w = width as int;
    let c = channels as int;
    let result = embed_bits(data, order, w, c, bits);
    lemma_embed_bits_len(data, order, width, height, channels, bits);
    if bits.len() == 0 {
    } else {
        let shorter = bits.drop_last();
        let prev = embed_bits(data, order, w, c, shorter);
        lemma_embed_bits_len(data, order, width, height, channels, shorter);
        lemma_embed_bits_effect(data, order, width, height, channels, shorter);
        let last = bits.len() - 1;
        let i_last = slot_index(order, w, c, last);
        lemma_slot_index_bounds(order, width, height, channels, last);
        lemma_set_lsb(prev[i_last], bits.last());
        assert forall|k: int| 0 <= k < bits.len() implies lsb(
            result[slot_index(order, w, c, k)],
        ) == bits[k] by {
            if k < last {
                lemma_slot_index_bounds(order, width, height, channels, k);
                lemma_slot_index_injective(order, width, height, channels, k, last);
                assert(result == prev.update(i_last, set_lsb(prev[i_last], bits.last())));
                assert(result[slot_index(order, w, c, k)] == prev[slot_index(order, w, c, k)]);
                assert(shorter[k] == bits[k]);
            } else {
                assert(result[i_last] == set_lsb(prev[i_last], bits.last()));
            }
        }
        assert forall|k: int| bits.len() <= k < order.len() * channels implies result[slot_index(
            order,
            w,
            c,
            k,
        )] == data[slot_index(order, w, c, k)] by {
            lemma_slot_index_bounds(order, width, height, channels, k);
            lemma_slot_index_injective(order, width, height, channels, k, last);
            assert(result == prev.update(i_last, set_lsb(prev[i_last], bits.last())));
            assert(result[slot_index(order, w, c, k)] == prev[slot_index(order, w, c, k)]);
        }
        assert forall|i: int| 0 <= i < data.len() implies result[i] & 0xfe == data[i] & 0xfe by {
            if i != i_last {
                assert(result[i] == prev[i]);
            }
        }
    }
}

/// Embeds a message into the grid's channel bits along the chosen order.
///
/// The walk order and the framed stream are fixed functions of the
/// arguments, so extraction with the same order settings recovers the
/// message.  Nothing is written unless the whole framed stream fits.
pub fn embed_message(
    grid: &mut PixelGrid,
    message: &str,
    use_prng: bool,
    seed: Option<u64>,
) -> (r: Result<(), String>)
    requires
        old(grid).wf(),
        8 * encode_utf8(message@).len() + 32 <= u32::MAX,
    ensures
        final(grid).wf(),
        final(grid).spec_width() == old(grid).spec_width(),
        final(grid).spec_height() == old(grid).spec_height(),
        final(grid).spec_channels() == old(grid).spec_channels(),
        ({
            let w = old(grid).spec_width() as nat;
            let h = old(grid).spec_height() as nat;
            let c = old(grid).spec_channels() as nat;
            let frame = frame_bits(encode_utf8(message@));
            if use_prng && seed is None {
                &&& r matches Err(e) && e@ == "PRNG selected but no seed provided"@
                &&& final(grid).spec_data() == old(grid).spec_data()
            } else if frame.len() > w * h * c {
                &&& r matches Err(e) && e@ == "Message too long to fit in image"@
                &&& final(grid).spec_data() == old(grid).spec_data()
            } else {
                &&& r is Ok
                &&& final(grid).spec_data() == embed_bits(
                    old(grid).spec_data(),
                    chosen_order(w, h, use_prng, seed),
                    w as int,
                    c as int,
                    frame,
                )
            }
        }),
{
    let width = grid.width();
    let height = grid.height();
    let channels = grid.channels();
    let ghost w = width as nat;
    let ghost h = height as nat;
    let ghost c = channels as nat;
    let total = grid.data().len();

    let mut msg_bits = message_to_bits(message);
    let n_bits: u32 = msg_bits.len() as u32;
    let mut full_bits: Vec<bool> = Vec::new();
    push_u32_bits(&mut full_bits, n_bits);
    full_bits.append(&mut msg_bits);
    proof {
        crate::bits::lemma_bytes_to_bits_len(encode_utf8(message@));
        assert(full_bits@ == frame_bits(encode_utf8(message@)));
    }

    proof {
        assert(w * h <= w * h * c) by (nonlinear_arith)
            requires
                c >= 1,
                w >= 0,
                h >= 0,
        ;
    }
    let positions: Vec<(u32, u32)> = if use_prng {
        match seed {
            Some(s) => permuted_order(width, height, s),
            None => {
                return Err("PRNG selected but no seed provided".to_owned());
            },
        }
    } else {
        sequential_order(width, height)
    };
    proof {
        assert(positions@ == chosen_order(w, h, use_prng, seed));
        assert(positions@.len() * c == w * h * c) by (nonlinear_arith)
            requires
                positions@.len() == w * h,
        ;
    }

    if full_bits.len() > total {
        return Err("Message too long to fit in image".to_owned());
    }

    let nb = full_bits.len();
    let c_us = channels as usize;
    for k in 0..nb
        invariant
            grid.wf(),
            grid.spec_width() == width,
            grid.spec_height() == height,
            grid.spec_channels() == channels,
            w == width as nat,
            h == height as nat,
            c == channels as nat,
            c_us == channels as usize,
            covers_grid(positions@, w, h),
            nb == full_bits@.len(),
            nb <= positions@.len() * c,
            grid.spec_data() == embed_bits(
                old(grid).spec_data(),
                positions@,
                w as int,
                c as int,
                full_bits@.take(k as int),
            ),
            old(grid).spec_data().len() == w * h * c,
    {
        proof {
            lemma_slot_index_bounds(positions@, w, h, c, k as int);
        }
        let p = k / c_us;
        let ch = (k % c_us) as u8;
        let pos = positions[p];
        let bit = full_bits[k];
        grid.write_lsb(pos.0, pos.1, ch, bit);
        proof {
            assert(full_bits@.take(k + 1).drop_last() =~= full_bits@.take(k as int));
            assert(full_bits@.take(k + 1).last() == full_bits@[k as int]);
            lemma_embed_bits_len(
                old(grid).spec_data(),
                positions@,
                w,
                h,
                c,
                full_bits@.take(k as int),
            );
            assert(slot_index(positions@, w as int, c as int, k as int) == chan_index(
                w as int,
                c as int,
                pos.0 as int,
                pos.1 as int,
                ch as int,
            ));
        }
    }
    proof {
        assert(full_bits@.take(nb as int) =~= full_bits@);
    }
    Ok(())
}

} // verus!
