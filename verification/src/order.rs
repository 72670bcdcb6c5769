//! Deterministic orderings of pixel coordinates.
//!
//! Embedding and extraction must walk the pixels of a canvas in exactly the
//! same order, so both orders here are fixed functions of their arguments:
//! the sequential order runs x in the outer loop and y in the inner loop,
//! both ascending, and the permuted order shuffles the sequential one with
//! a Fisher–Yates pass driven by a ChaCha20 stream seeded from a 64-bit
//! value.  Either way the result lists every coordinate exactly once.

use std::collections::hash_map::DefaultHasher;
use std::hash::Hash;
use std::hash::Hasher;
use rand::seq::SliceRandom;
use rand::SeedableRng;
use vstd::arithmetic::div_mod::lemma_fundamental_div_mod;
use vstd::arithmetic::div_mod::lemma_fundamental_div_mod_converse;
use vstd::arithmetic::div_mod::lemma_multiply_divide_lt;
use vstd::prelude::*;

verus! {

/// Coordinate k of the sequential order: x outer and ascending, y inner
/// and ascending, so k names the pair (k / height, k % height).
pub open spec fn sequential_positions(width: nat, height: nat) -> Seq<(u32, u32)> {
    Seq::new(
        width * height,
        |k: int| ((k / height as int) as u32, (k % height as int) as u32),
    )
}

/// A pixel order fit for a width-by-height canvas: one entry per pixel,
/// every entry in range, no coordinate named twice.
pub open spec fn covers_grid(order: Seq<(u32, u32)>, width: nat, height: nat) -> bool {
    &&& order.len() == width * height
    &&& forall|k: int|
        0 <= k < order.len() ==> (#[trigger] order[k]).0 < width && order[k].1 < height
    &&& order.no_duplicates()
}

/// What rand's Fisher–Yates shuffle leaves in a slice of coordinates when
/// driven by a ChaCha20 stream seeded from the given value; a fixed
/// function of the old contents and the seed.
pub uninterp spec fn chacha_shuffled(positions: Seq<(u32, u32)>, seed: u64) -> Seq<(u32, u32)>;

/// The 64-bit value that std's default hasher assigns to a string; a fixed
/// function of the characters.
pub uninterp spec fn seed_of(text: Seq<char>) -> u64;

/// The order a walk of the canvas follows: sequential, or permuted by the
/// given seed.  Embedding and extraction both walk this order.
pub open spec fn chosen_order(width: nat, height: nat, use_prng: bool, seed: Option<u64>) -> Seq<
    (u32, u32),
> {
    if use_prng {
        chacha_shuffled(sequential_positions(width, height), seed->0)
    } else {
        sequential_positions(width, height)
    }
}

/// Relies on `rand::seq::SliceRandom::shuffle` with
/// `rand_chacha::ChaCha20Rng::seed_from_u64`: the shuffle permutes the
/// slice in place (the same elements, possibly reordered), and both the
/// generator and the shuffle are deterministic, so the outcome is a
/// function of the old contents and the seed alone.
#[verifier::external_body]
fn shuffle_seeded(positions: &mut Vec<(u32, u32)>, seed: u64)
    ensures
        final(positions)@ == chacha_shuffled(old(positions)@, seed),
        final(positions)@.to_multiset() == old(positions)@.to_multiset(),
        final(positions)@.len() == old(positions)@.len(),
{
    let mut rng = rand_chacha::ChaCha20Rng::seed_from_u64(seed);
    positions.shuffle(&mut rng);
}

/// Relies on `std::collections::hash_map::DefaultHasher`: hashers made by
/// `new` all behave alike, so hashing a string through one is a
/// deterministic function of the string.
#[verifier::external_body]
pub fn string_to_seed(seed_str: &str) -> (seed: u64)
    ensures
        seed == seed_of(seed_str@),
{
    let mut hasher = DefaultHasher::new();
    seed_str.hash(&mut hasher);
    hasher.finish()
}

/// The sequential order lists every coordinate of the canvas exactly once.
pub proof fn lemma_sequential_covers(width: nat, height: nat)
    requires
        width <= u32::MAX,
        height <= u32::MAX,
    ensures
        covers_grid(sequential_positions(width, height), width, height),
{
    let s = sequential_positions(width, height);
    if height == 0 {
        assert(s.len() == 0);
    } else {
        let h = height as int;
        assert forall|k: int| 0 <= k < s.len() implies (#[trigger] s[k]).0 < width && s[k].1
            < height by {
            lemma_multiply_divide_lt(k, h, width as int);
            lemma_fundamental_div_mod(k, h);
            assert(k / h < width);
            assert(0 <= k % h < height);
            assert(k / h >= 0) by {
                vstd::arithmetic::div_mod::lemma_div_pos_is_pos(k, h);
            }
        }
        assert forall|k1: int, k2: int| 0 <= k1 < k2 < s.len() implies s[k1] != s[k2] by {
            lemma_multiply_divide_lt(k1, h, width as int);
            lemma_multiply_divide_lt(k2, h, width as int);
            vstd::arithmetic::div_mod::lemma_div_pos_is_pos(k1, h);
            vstd::arithmetic::div_mod::lemma_div_pos_is_pos(k2, h);
            lemma_fundamental_div_mod(k1, h);
            lemma_fundamental_div_mod(k2, h);
            if s[k1] == s[k2] {
                assert((k1 / h) as u32 == (k2 / h) as u32);
                assert((k1 % h) as u32 == (k2 % h) as u32);
                assert(0 <= k1 / h <= u32::MAX && 0 <= k2 / h <= u32::MAX);
                assert(0 <= k1 % h < h <= u32::MAX && 0 <= k2 % h < h <= u32::MAX);
                assert(k1 / h == k2 / h);
                assert(k1 % h == k2 % h);
                assert(k1 == h * (k1 / h) + k1 % h);
                assert(k2 == h * (k2 / h) + k2 % h);
                assert(false);
            }
        }
        assert(s.no_duplicates());
    }
}

/// Rearranging a covering order (same multiset of entries) leaves it a
/// covering order.
pub proof fn lemma_permutation_covers(
    a: Seq<(u32, u32)>,
    b: Seq<(u32, u32)>,
    width: nat,
    height: nat,
)
    requires
        covers_grid(a, width, height),
        a.to_multiset() == b.to_multiset(),
    ensures
        covers_grid(b, width, height),
{
    broadcast use vstd::seq_lib::group_to_multiset_ensures;

    assert(b.len() == b.to_multiset().len());
    assert(a.len() == a.to_multiset().len());
    assert forall|k: int| 0 <= k < b.len() implies (#[trigger] b[k]).0 < width && b[k].1
        < height by {
        assert(b.contains(b[k]));
        assert(b.to_multiset().count(b[k]) > 0);
        assert(a.contains(b[k]));
        let j = choose|j: int| 0 <= j < a.len() && a[j] == b[k];
        assert(a[j].0 < width && a[j].1 < height);
    }
    a.lemma_multiset_has_no_duplicates();
    assert forall|x: (u32, u32)| b.to_multiset().contains(x) implies b.to_multiset().count(x)
        == 1 by {
        assert(a.to_multiset().count(x) > 0);
    }
    b.lemma_multiset_has_no_duplicates_conv();
}

/// Lists the canvas coordinates in sequential order: x outer and
/// ascending, y inner and ascending.
pub fn sequential_order(width: u32, height: u32) -> (r: Vec<(u32, u32)>)
    requires
        width as int * height as int <= usize::MAX as int,
    ensures
        r@ == sequential_positions(width as nat, height as nat),
        covers_grid(r@, width as nat, height as nat),
{
    let mut positions: Vec<(u32, u32)> = Vec::new();
    let ghost target = sequential_positions(width as nat, height as nat);
    for x in 0..width
        invariant
            width as int * height as int <= usize::MAX as int,
            positions@.len() == x as int * height as int,
            target == sequential_positions(width as nat, height as nat),
            forall|j: int| 0 <= j < positions@.len() ==> #[trigger] positions@[j] == target[j],
            target.len() == width as int * height as int,
    {
        for y in 0..height
            invariant
                width as int * height as int <= usize::MAX as int,
                x < width,
                positions@.len() == x as int * height as int + y as int,
                target == sequential_positions(width as nat, height as nat),
                forall|j: int| 0 <= j < positions@.len() ==> #[trigger] positions@[j] == target[j],
                target.len() == width as int * height as int,
        {
            proof {
                let k = x as int * height as int + y as int;
                lemma_fundamental_div_mod_converse(k, height as int, x as int, y as int);
                assert(x as int * height as int + height as int <= width as int * height as int)
                    by (nonlinear_arith)
                    requires
                        (x as int) < (width as int),
                        (height as int) >= 0,
                ;
                assert(0 <= k < target.len());
                assert(k / (height as int) == x as int);
                assert(k % (height as int) == y as int);
                let ghost hh = (height as nat) as int;
                assert(hh == height as int);
                assert(target[k].0 == (k / hh) as u32);
                assert(target[k].1 == (k % hh) as u32);
                assert(target[k] == (x, y));
            }
            positions.push((x, y));
        }
        proof {
            assert((x as int + 1) * height as int == x as int * height as int + height as int)
                by (nonlinear_arith);
        }
    }
    proof {
        assert(positions@ =~= target);
        lemma_sequential_covers(width as nat, height as nat);
    }
    positions
}

/// Lists the canvas coordinates in the seeded pseudo-random order: the
/// sequential order rearranged by the seeded shuffle.  A fixed function of
/// width, height and seed, so embedding and extraction agree whenever they
/// are given the same seed.
pub fn permuted_order(width: u32, height: u32, seed: u64) -> (r: Vec<(u32, u32)>)
    requires
        width as int * height as int <= usize::MAX as int,
    ensures
        r@ == chacha_shuffled(sequential_positions(width as nat, height as nat), seed),
        covers_grid(r@, width as nat, height as nat),
{
    let mut positions = sequential_order(width, height);
    proof {
        lemma_sequential_covers(width as nat, height as nat);
    }
    shuffle_seeded(&mut positions, seed);
    proof {
        lemma_permutation_covers(
            sequential_positions(width as nat, height as nat),
            positions@,
            width as nat,
            height as nat,
        );
    }
    positions
}

} // verus!
