//! Bit-level framing of byte payloads.
//!
//! A payload is shipped as a self-describing bit sequence: a 32-bit header
//! holding the number of payload *bits* (most-significant bit first),
//! followed by the payload bytes expanded to bits, most-significant bit
//! first within each byte.  Reading the stream back regroups the declared
//! number of bits into bytes; a trailing group of fewer than eight bits is
//! still consumed as one byte built from the bits present.

use crate::text::bytes_as_chars;
use crate::text::string_of_chars;
use vstd::arithmetic::power2::pow2;
use vstd::arithmetic::power2::lemma_pow2_unfold;
use vstd::arithmetic::power2::lemma_pow2_strictly_increases;
use vstd::arithmetic::power2::lemma2_to64;
use vstd::arithmetic::div_mod::lemma_div_denominator;
use vstd::bits::lemma_u32_shr_is_div;
use vstd::bits::lemma_u8_shr_is_div;
use vstd::prelude::*;
use vstd::string::StrSliceExecFns;
use vstd::utf8::encode_utf8;

verus! {

/// The value of a bit sequence read most-significant bit first.
pub open spec fn bits_value(bits: Seq<bool>) -> int
    decreases bits.len(),
{
    if bits.len() == 0 {
        0
    } else {
        2 * bits_value(bits.drop_last()) + if bits.last() {
            1int
        } else {
            0int
        }
    }
}

/// The `width` lowest binary digits of `n`, most-significant first.
pub open spec fn num_bits(n: int, width: nat) -> Seq<bool>
    decreases width,
{
    if width == 0 {
        Seq::empty()
    } else {
        num_bits(n / 2, (width - 1) as nat).push(n % 2 == 1)
    }
}

/// The eight bits of a byte, most-significant first.
pub open spec fn byte_bits(b: u8) -> Seq<bool> {
    num_bits(b as int, 8)
}

/// A byte sequence expanded to bits, byte by byte.
pub open spec fn bytes_to_bits(bytes: Seq<u8>) -> Seq<bool>
    decreases bytes.len(),
{
    if bytes.len() == 0 {
        Seq::empty()
    } else {
        byte_bits(bytes.first()) + bytes_to_bits(bytes.drop_first())
    }
}

/// Bits regrouped into bytes, eight at a time, most-significant first;
/// a final group of fewer than eight bits still yields one byte.
pub open spec fn bits_to_bytes(bits: Seq<bool>) -> Seq<u8>
    decreases bits.len(),
{
    if bits.len() == 0 {
        Seq::empty()
    } else if bits.len() < 8 {
        seq![bits_value(bits) as u8]
    } else {
        seq![bits_value(bits.take(8)) as u8] + bits_to_bytes(bits.skip(8))
    }
}

/// The framed bit stream of a payload: a 32-bit header holding the payload
/// bit count, then the payload bits.
pub open spec fn frame_bits(payload: Seq<u8>) -> Seq<bool> {
    num_bits(8 * payload.len() as int, 32) + bytes_to_bits(payload)
}

/// Reading a framed payload back out of a bit stream: the first 32 bits
/// declare how many payload bits follow; the stream must hold them all.
pub open spec fn unframe_bits(bits: Seq<bool>) -> Option<Seq<u8>> {
    if bits.len() < 32 {
        None
    } else {
        let n = bits_value(bits.take(32));
        if bits.len() < 32 + n {
            None
        } else {
            Some(bits_to_bytes(bits.subrange(32, 32 + n)))
        }
    }
}

pub proof fn lemma_num_bits_len(n: int, width: nat)
    ensures
        num_bits(n, width).len() == width,
    decreases width,
{
    if width > 0 {
        lemma_num_bits_len(n / 2, (width - 1) as nat);
    }
}

pub proof fn lemma_bits_value_bounds(bits: Seq<bool>)
    ensures
        0 <= bits_value(bits) < pow2(bits.len()),
    decreases bits.len(),
{
    if bits.len() == 0 {
        lemma2_to64();
    } else {
        lemma_bits_value_bounds(bits.drop_last());
        lemma_pow2_unfold(bits.len());
    }
}

pub proof fn lemma_num_bits_value(n: int, width: nat)
    requires
        0 <= n < pow2(width),
    ensures
        bits_value(num_bits(n, width)) == n,
    decreases width,
{
    if width == 0 {
        lemma2_to64();
    } else {
        lemma_pow2_unfold(width);
        lemma_num_bits_value(n / 2, (width - 1) as nat);
        lemma_num_bits_len(n / 2, (width - 1) as nat);
        let s = num_bits(n, width);
        assert(s.drop_last() =~= num_bits(n / 2, (width - 1) as nat));
    }
}

/// Each digit of `num_bits` is a quotient of `n` by a power of two, modulo two.
pub proof fn lemma_num_bits_index(n: int, width: nat, i: int)
    requires
        n >= 0,
        0 <= i < width,
    ensures
        num_bits(n, width)[i] == ((n / pow2((width - 1 - i) as nat) as int) % 2 == 1),
    decreases width,
{
    lemma_num_bits_len(n / 2, (width - 1) as nat);
    if i == width - 1 {
        lemma2_to64();
        assert(num_bits(n, width)[i] == (n % 2 == 1));
        assert(pow2((width - 1 - i) as nat) == 1);
        assert(n / 1int == n);
        assert((n / pow2((width - 1 - i) as nat) as int) % 2 == n % 2);
    } else {
        let e = (width - 2 - i) as nat;
        lemma_num_bits_index(n / 2, (width - 1) as nat, i);
        assert(num_bits(n / 2, (width - 1) as nat)[i] == ((n / 2 / pow2(e) as int) % 2 == 1));
        assert(num_bits(n, width)[i] == num_bits(n / 2, (width - 1) as nat)[i]);
        vstd::arithmetic::power2::lemma_pow2_pos(e);
        lemma_div_denominator(n, 2, pow2(e) as int);
        assert(n / 2 / pow2(e) as int == n / (2 * pow2(e) as int));
        lemma_pow2_unfold((e + 1) as nat);
        assert(pow2((e + 1) as nat) == 2 * pow2(e));
        assert((width - 1 - i) as nat == (e + 1) as nat);
        assert((n / pow2((width - 1 - i) as nat) as int) == n / 2 / pow2(e) as int);
        assert(num_bits(n, width)[i] == ((n / pow2((width - 1 - i) as nat) as int) % 2 == 1));
    }
}

pub proof fn lemma_bytes_to_bits_len(bytes: Seq<u8>)
    ensures
        bytes_to_bits(bytes).len() == 8 * bytes.len(),
    decreases bytes.len(),
{
    if bytes.len() > 0 {
        lemma_num_bits_len(bytes.first() as int, 8);
        lemma_bytes_to_bits_len(bytes.drop_first());
    }
}

/// Expanding one more byte appends its eight bits.
pub proof fn lemma_bytes_to_bits_push(bytes: Seq<u8>, b: u8)
    ensures
        bytes_to_bits(bytes.push(b)) == bytes_to_bits(bytes) + byte_bits(b),
    decreases bytes.len(),
{
    if bytes.len() == 0 {
        let p = bytes.push(b);
        assert(p.len() == 1);
        assert(p.first() == b);
        assert(p.drop_first().len() == 0);
        assert(bytes_to_bits(p) == byte_bits(b) + bytes_to_bits(p.drop_first()));
        assert(bytes_to_bits(p.drop_first()) =~= Seq::<bool>::empty());
        assert(byte_bits(b) + Seq::<bool>::empty() =~= byte_bits(b));
        assert(bytes_to_bits(bytes) =~= Seq::<bool>::empty());
        assert(bytes_to_bits(bytes) + byte_bits(b) =~= byte_bits(b));
    } else {
        assert(bytes.push(b).drop_first() =~= bytes.drop_first().push(b));
        lemma_bytes_to_bits_push(bytes.drop_first(), b);
        assert(bytes_to_bits(bytes.push(b)) =~= bytes_to_bits(bytes) + byte_bits(b));
    }
}

/// Regrouping distributes over concatenation at byte boundaries.
pub proof fn lemma_bits_to_bytes_concat(a: Seq<bool>, b: Seq<bool>)
    requires
        a.len() % 8 == 0,
    ensures
        bits_to_bytes(a + b) == bits_to_bytes(a) + bits_to_bytes(b),
    decreases a.len(),
{
    if a.len() == 0 {
        assert(a + b =~= b);
        assert(bits_to_bytes(a) + bits_to_bytes(b) =~= bits_to_bytes(b));
    } else {
        assert(a.len() >= 8);
        assert((a + b).take(8) =~= a.take(8));
        assert((a + b).skip(8) =~= a.skip(8) + b);
        assert(a.skip(8).len() % 8 == 0);
        lemma_bits_to_bytes_concat(a.skip(8), b);
        if b.len() == 0 {
            assert(a + b =~= a);
            assert(a.skip(8) + b =~= a.skip(8));
            assert(bits_to_bytes(a) + bits_to_bytes(b) =~= bits_to_bytes(a));
        } else {
            assert((a + b).len() >= 8);
            assert(bits_to_bytes(a + b) =~= bits_to_bytes(a) + bits_to_bytes(b));
        }
    }
}

/// Regrouping the expansion of a byte sequence gives the bytes back.
pub proof fn lemma_bits_to_bytes_of_bytes(bytes: Seq<u8>)
    ensures
        bits_to_bytes(bytes_to_bits(bytes)) == bytes,
    decreases bytes.len(),
{
    if bytes.len() == 0 {
        assert(bits_to_bytes(bytes_to_bits(bytes)) =~= bytes);
    } else {
        let s = bytes_to_bits(bytes);
        lemma_bytes_to_bits_len(bytes);
        lemma_bytes_to_bits_len(bytes.drop_first());
        lemma_num_bits_len(bytes.first() as int, 8);
        assert(s.take(8) =~= byte_bits(bytes.first()));
        assert(s.skip(8) =~= bytes_to_bits(bytes.drop_first()));
        lemma2_to64();
        lemma_num_bits_value(bytes.first() as int, 8);
        lemma_bits_to_bytes_of_bytes(bytes.drop_first());
        assert(bits_to_bytes(s) =~= bytes);
    }
}

/// Any stream that starts with the framed payload unframes to exactly that
/// payload, whatever trails behind it.
pub proof fn lemma_unframe_of_framed(payload: Seq<u8>, s: Seq<bool>)
    requires
        8 * payload.len() < pow2(32),
        s.len() >= 32 + 8 * payload.len(),
        s.subrange(0, 32 + 8 * payload.len() as int) == frame_bits(payload),
    ensures
        unframe_bits(s) == Some(payload),
{
    let header = num_bits(8 * payload.len() as int, 32);
    lemma_num_bits_len(8 * payload.len() as int, 32);
    lemma_bytes_to_bits_len(payload);
    assert(s.take(32) =~= header);
    lemma_num_bits_value(8 * payload.len() as int, 32);
    assert(bits_value(s.take(32)) == 8 * payload.len());
    let l = 32 + 8 * payload.len() as int;
    assert forall|j: int| 0 <= j < 8 * payload.len() implies s.subrange(32, l)[j]
        == bytes_to_bits(payload)[j] by {
        assert(s[32 + j] == s.subrange(0, l)[32 + j]);
        assert(frame_bits(payload)[32 + j] == bytes_to_bits(payload)[j]);
    }
    assert(s.subrange(32, l) =~= bytes_to_bits(payload));
    lemma_bits_to_bytes_of_bytes(payload);
}

/// Appends the eight bits of one byte, most-significant first.
fn push_byte_bits(bits: &mut Vec<bool>, b: u8)
    ensures
        final(bits)@ == old(bits)@ + byte_bits(b),
{
    proof {
        lemma_num_bits_len(b as int, 8);
    }
    for j in 0..8usize
        invariant
            bits@ == old(bits)@ + byte_bits(b).take(j as int),
            byte_bits(b).len() == 8,
    {
        let sh: u8 = (7 - j) as u8;
        let bit = ((b >> sh) & 1) == 1;
        proof {
            lemma_u8_shr_is_div(b, sh);
            assert(((b >> sh) & 1) == (b >> sh) % 2) by (bit_vector);
            lemma_num_bits_index(b as int, 8, j as int);
            assert(b as int / pow2((7 - j) as nat) as int == (b >> sh) as int);
            assert(bit == byte_bits(b)[j as int]);
            assert((old(bits)@ + byte_bits(b).take(j as int)).push(byte_bits(b)[j as int])
                =~= old(bits)@ + byte_bits(b).take(j + 1));
        }
        bits.push(bit);
    }
    proof {
        assert(byte_bits(b).take(8) =~= byte_bits(b));
    }
}

/// Appends the 32 bits of the length header, most-significant first.
pub(crate) fn push_u32_bits(bits: &mut Vec<bool>, n: u32)
    ensures
        final(bits)@ == old(bits)@ + num_bits(n as int, 32),
{
    proof {
        lemma_num_bits_len(n as int, 32);
    }
    for j in 0..32usize
        invariant
            bits@ == old(bits)@ + num_bits(n as int, 32).take(j as int),
            num_bits(n as int, 32).len() == 32,
    {
        let sh: u32 = (31 - j) as u32;
        let bit = ((n >> sh) & 1) == 1;
        proof {
            lemma_u32_shr_is_div(n, sh);
            assert(((n >> sh) & 1) == (n >> sh) % 2) by (bit_vector);
            lemma_num_bits_index(n as int, 32, j as int);
            assert(n as int / pow2((31 - j) as nat) as int == (n >> sh) as int);
            assert(bit == num_bits(n as int, 32)[j as int]);
            assert((old(bits)@ + num_bits(n as int, 32).take(j as int)).push(
                num_bits(n as int, 32)[j as int],
            ) =~= old(bits)@ + num_bits(n as int, 32).take(j + 1));
        }
        bits.push(bit);
    }
    proof {
        assert(num_bits(n as int, 32).take(32) =~= num_bits(n as int, 32));
    }
}

/// Expands a message's UTF-8 bytes to bits, most-significant bit first
/// within each byte, in payload order.
pub fn message_to_bits(message: &str) -> (bits: Vec<bool>)
    ensures
        bits@ == bytes_to_bits(encode_utf8(message@)),
{
    let bytes = message.as_bytes_vec();
    let mut bits: Vec<bool> = Vec::new();
    let n = bytes.len();
    for i in 0..n
        invariant
            n == bytes@.len(),
            bytes@ == encode_utf8(message@),
            bits@ == bytes_to_bits(bytes@.take(i as int)),
    {
        let b = bytes[i];
        push_byte_bits(&mut bits, b);
        proof {
            assert(bytes@.take(i as int).push(b) =~= bytes@.take(i + 1));
            lemma_bytes_to_bits_push(bytes@.take(i as int), b);
        }
    }
    proof {
        assert(bytes@.take(n as int) =~= bytes@);
    }
    bits
}

/// Reads a 32-bit length prefix, most-significant bit first, from exactly
/// 32 bits; any other slice length is a malformed prefix.
pub fn bits_to_u32(bits: &[bool]) -> (r: Result<u32, String>)
    ensures
        bits@.len() == 32 ==> (r matches Ok(v) && v == bits_value(bits@)),
        bits@.len() != 32 ==> (r matches Err(e) && e@ == "Invalid length prefix"@),
{
    if bits.len() != 32 {
        return Err("Invalid length prefix".to_owned());
    }
    let mut value: u32 = 0;
    for i in 0..32usize
        invariant
            bits@.len() == 32,
            value == bits_value(bits@.take(i as int)),
    {
        proof {
            lemma_bits_value_bounds(bits@.take(i as int));
            if (i as nat) < 31 {
                lemma_pow2_strictly_increases(i as nat, 31);
            }
            lemma2_to64();
            assert(bits@.take(i + 1).drop_last() =~= bits@.take(i as int));
        }
        value = value * 2 + if bits[i] { 1 } else { 0 };
    }
    proof {
        assert(bits@.take(32) =~= bits@);
    }
    Ok(value)
}

/// Regroups payload bits into bytes, eight at a time (a trailing group of
/// fewer than eight bits still becomes one byte), and reads each byte as
/// one character code point.
pub fn bits_to_message(bits: &[bool]) -> (r: String)
    ensures
        r@ == bytes_as_chars(bits_to_bytes(bits@)),
{
    let mut chars: Vec<char> = Vec::new();
    let n = bits.len();
    let mut i: usize = 0;
    while i < n
        invariant
            n == bits@.len(),
            i <= n,
            i % 8 == 0 || i == n,
            chars@ == bytes_as_chars(bits_to_bytes(bits@.take(i as int))),
        decreases n - i,
    {
        let chunk = if n - i < 8 {
            n - i
        } else {
            8
        };
        let mut byte: u8 = 0;
        let mut j: usize = 0;
        while j < chunk
            invariant
                n == bits@.len(),
                i + chunk <= n,
                1 <= chunk <= 8,
                j <= chunk,
                byte == bits_value(bits@.subrange(i as int, i + j)),
            decreases chunk - j,
        {
            proof {
                lemma_bits_value_bounds(bits@.subrange(i as int, i + j));
                if (j as nat) < 7 {
                    lemma_pow2_strictly_increases(j as nat, 7);
                }
                lemma2_to64();
                assert(bits@.subrange(i as int, i + j + 1).drop_last()
                    =~= bits@.subrange(i as int, i + j));
            }
            byte = byte * 2 + if bits[i + j] { 1 } else { 0 };
            j += 1;
        }
        chars.push(byte as char);
        proof {
            let a = bits@.take(i as int);
            let c = bits@.subrange(i as int, i + chunk);
            assert(a + c =~= bits@.take(i + chunk));
            lemma_bits_to_bytes_concat(a, c);
            if chunk == 8 {
                assert(c.take(8) =~= c);
                assert(c.skip(8).len() == 0);
                assert(byte == bits_value(c));
                assert(bits_to_bytes(c) == seq![bits_value(c.take(8)) as u8]
                    + bits_to_bytes(c.skip(8)));
                assert(bits_to_bytes(c.skip(8)) =~= Seq::<u8>::empty());
                assert(bits_to_bytes(c) =~= seq![byte]);
            } else {
                assert(i + chunk == n);
                assert(bits_to_bytes(c) =~= seq![byte]);
            }
            assert(bytes_as_chars(bits_to_bytes(a) + seq![byte])
                =~= bytes_as_chars(bits_to_bytes(a)).push(byte as char));
        }
        i += chunk;
    }
    proof {
        assert(bits@.take(i as int) =~= bits@);
    }
    string_of_chars(&chars)
}

} // verus!
