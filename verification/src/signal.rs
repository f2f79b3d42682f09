//! Extraction of raw signal bits from a CAN payload.
//!
//! A signal is described by its start bit, its size in bits, its byte order
//! (Intel / little-endian `@1` or Motorola / big-endian `@0`) and whether the
//! raw bits are read as a two's complement number.
use vstd::prelude::*;
use crate::frame::CanId;
use vstd::arithmetic::power2::{pow2, lemma_pow2_pos, lemma_pow2_adds, lemma2_to64, lemma2_to64_rest, lemma_pow2_strictly_increases};
use vstd::arithmetic::div_mod::{
    lemma_div_denominator, lemma_mod_breakdown, lemma_div_multiples_vanish_fancy,
    lemma_hoist_over_denominator, lemma_mod_multiples_vanish, lemma_small_mod,
    lemma_mod_bound, lemma_mul_mod_noop_left, lemma_add_mod_noop, lemma_fundamental_div_mod,
};
use vstd::arithmetic::mul::{lemma_mul_is_associative, lemma_mul_is_commutative, lemma_mul_inequality, lemma_mul_strictly_positive};
use vstd::bits::{lemma_u64_shr_is_div, lemma_u64_shl_is_mul, lemma_u64_low_bits_mask_is_mod, low_bits_mask, lemma_u64_pow2_no_overflow};

verus! {

/// Byte order of a signal inside the payload.
#[derive(Clone, Copy, Debug, PartialEq, Eq, Structural)]
pub enum ByteOrder {
    /// Intel order (`@1` in a DBC file).
    LittleEndian,
    /// Motorola order (`@0` in a DBC file).
    BigEndian,
}

/// How the raw bits of a signal are interpreted.
#[derive(Clone, Copy, Debug, PartialEq, Eq, Structural)]
pub enum ValueType {
    /// Two's complement over the signal size (`-` in a DBC file).
    Signed,
    /// Plain binary (`+` in a DBC file).
    Unsigned,
}

/// Why a frame or a signal could not be decoded.
#[derive(Clone, Debug, PartialEq, Eq, Structural)]
pub enum DecodeError {
    /// The signal size is 0 or larger than 64 bits.
    InvalidSignalSize { size: u64 },
    /// The payload is too short for the signal.
    NotEnoughData { byte_order: ByteOrder, start_bit: usize, size_bits: usize, data_len: usize },
    /// The payload is longer than the 8 bytes of a classic CAN frame.
    FrameTooLong { id: CanId, data_len: usize },
    /// No message of the database has the frame's identifier.
    NoMessageDefinition { id: CanId },
    /// The identifier index points past the message list.
    MessageIndexOutOfBounds { index: usize, id: CanId },
}

/// Integer value of a byte sequence read little-endian: byte `i` weighs `256^i`.
pub open spec fn le_value(bytes: Seq<u8>) -> nat
    decreases bytes.len(),
{
    if bytes.len() == 0 {
        0
    } else {
        bytes[0] as nat + 256 * le_value(bytes.drop_first())
    }
}

/// Integer value of a byte sequence read big-endian: the last byte weighs 1.
pub open spec fn be_value(bytes: Seq<u8>) -> nat
    decreases bytes.len(),
{
    if bytes.len() == 0 {
        0
    } else {
        be_value(bytes.drop_last()) * 256 + bytes.last() as nat
    }
}

/// An Intel signal is the bit field `[start_bit, start_bit + size)` of the payload
/// read as one little-endian integer (bit `8 * i + j` is bit `j` of byte `i`).
pub open spec fn intel_raw(data: Seq<u8>, start_bit: nat, size: nat) -> nat {
    (le_value(data) / pow2(start_bit)) % pow2(size)
}

/// The Intel bit field lies inside the payload.
pub open spec fn intel_fits(data_len: nat, start_bit: nat, size: nat) -> bool {
    size == 0 || start_bit + size <= 8 * data_len
}

/// Number of bytes from the signal's first byte that a Motorola signal touches:
/// `start_bit` names its most significant bit, and the bits run towards bit 0 of
/// that byte and on into bit 7 of the following byte.
pub open spec fn motorola_byte_count(start_bit: nat, size: nat) -> nat {
    ((7 - start_bit % 8) + size + 7) as nat / 8
}

/// Position of the signal's least significant bit in the big-endian window.
pub open spec fn motorola_shift(start_bit: nat, size: nat) -> nat {
    (8 * motorola_byte_count(start_bit, size) - (7 - start_bit % 8) - size) as nat
}

/// The Motorola window lies inside the payload.
pub open spec fn motorola_fits(data_len: nat, start_bit: nat, size: nat) -> bool {
    start_bit / 8 + motorola_byte_count(start_bit, size) <= data_len
}

/// A Motorola signal: the bytes of its window read as a big-endian integer,
/// held in 64 bits, shifted down to the signal's least significant bit and
/// cut to `size` bits.
pub open spec fn motorola_raw(data: Seq<u8>, start_bit: nat, size: nat) -> nat {
    let first = start_bit / 8;
    let window = data.subrange(first as int, (first + motorola_byte_count(start_bit, size)) as int);
    ((be_value(window) % pow2(64)) / pow2(motorola_shift(start_bit, size))) % pow2(size)
}

/// What extracting a signal's raw bits gives.
pub open spec fn extract_spec(data: Seq<u8>, start_bit: nat, size: nat, byte_order: ByteOrder) -> Result<u64, DecodeError> {
    let err = DecodeError::NotEnoughData {
        byte_order,
        start_bit: start_bit as usize,
        size_bits: size as usize,
        data_len: data.len() as usize,
    };
    match byte_order {
        ByteOrder::LittleEndian => if intel_fits(data.len(), start_bit, size) {
            Ok(intel_raw(data, start_bit, size) as u64)
        } else {
            Err(err)
        },
        ByteOrder::BigEndian => if motorola_fits(data.len(), start_bit, size) {
            Ok(motorola_raw(data, start_bit, size) as u64)
        } else {
            Err(err)
        },
    }
}

/// The number that `size` raw bits stand for.
pub open spec fn interpret_raw(raw: nat, size: nat, value_type: ValueType) -> int {
    match value_type {
        ValueType::Unsigned => raw as int,
        ValueType::Signed => if size > 0 && raw >= pow2((size - 1) as nat) {
            raw - pow2(size)
        } else {
            raw as int
        },
    }
}

/// What decoding a signal gives, before factor and offset are applied.
pub open spec fn decode_signal_spec(
    start_bit: u64,
    size: u64,
    byte_order: ByteOrder,
    value_type: ValueType,
    data: Seq<u8>,
) -> Result<i128, DecodeError> {
    if size == 0 || size > 64 {
        Err(DecodeError::InvalidSignalSize { size })
    } else {
        match extract_spec(data, start_bit as usize as nat, size as nat, byte_order) {
            Ok(raw) => Ok(interpret_raw(raw as nat, size as nat, value_type) as i128),
            Err(e) => Err(e),
        }
    }
}

// ----- arithmetic facts -----

proof fn lemma_pow2_facts(n: nat)
    ensures
        pow2(n) > 0,
        pow2(0) == 1,
        pow2(8) == 256,
        pow2(64) == 0x1_0000_0000_0000_0000,
{
    lemma_pow2_pos(n);
    lemma2_to64();
    lemma2_to64_rest();
}

/// Dividing the little-endian value by `2^(8c)` drops the first `c` bytes.
proof fn lemma_le_value_skip(d: Seq<u8>, c: nat)
    requires
        c <= d.len(),
    ensures
        le_value(d) / pow2(8 * c) == le_value(d.skip(c as int)),
    decreases c,
{
    lemma_pow2_facts(0);
    if c == 0 {
        assert(d.skip(0) =~= d);
        assert(le_value(d) / 1 == le_value(d));
    } else {
        let d1 = d.drop_first();
        lemma_pow2_adds(8, (8 * (c - 1)) as nat);
        assert(8 + 8 * (c - 1) == 8 * c) by (nonlinear_arith)
            requires c > 0;
        lemma_pow2_pos((8 * (c - 1)) as nat);
        let p = pow2((8 * (c - 1)) as nat);
        assert(pow2(8 * c) == 256 * p);
        lemma_div_denominator(le_value(d) as int, 256, p as int);
        assert(le_value(d) / pow2(8 * c) == (le_value(d) / 256) / p);
        lemma_div_multiples_vanish_fancy(le_value(d1) as int, d[0] as int, 256);
        assert(le_value(d) as int == 256 * le_value(d1) + d[0]);
        lemma_le_value_skip(d1, (c - 1) as nat);
        assert(d1.skip((c - 1) as int) =~= d.skip(c as int));
        assert(le_value(d) / 256 == le_value(d1));
        assert(le_value(d1) / p == le_value(d1.skip((c - 1) as int)));
        assert(le_value(d) / pow2(8 * c) == le_value(d.skip(c as int)));
    }
}

/// A bit field that lies inside byte `c` is read from that byte alone.
proof fn lemma_le_chunk(d: Seq<u8>, c: nat, off: nat, m: nat)
    requires
        c < d.len(),
        off + m <= 8,
    ensures
        (le_value(d) / pow2(8 * c + off)) % pow2(m) == (d[c as int] as nat / pow2(off)) % pow2(m),
{
    lemma_pow2_facts(0);
    lemma_pow2_pos(off);
    lemma_pow2_pos(m);
    lemma_pow2_pos((8 * c) as nat);
    lemma_pow2_pos((8 - off) as nat);
    lemma_pow2_pos((8 - off - m) as nat);
    let tail = d.skip(c as int);
    let rest = le_value(tail.drop_first());
    lemma_le_value_skip(d, c);
    lemma_pow2_adds((8 * c) as nat, off);
    lemma_div_denominator(le_value(d) as int, pow2((8 * c) as nat) as int, pow2(off) as int);
    assert(le_value(tail) == tail[0] as nat + 256 * rest);
    assert(tail[0] == d[c as int]);
    // 256 = 2^off * 2^(8 - off)
    lemma_pow2_adds(off, (8 - off) as nat);
    let hi = pow2((8 - off) as nat) * rest;
    assert(256 * rest == hi * pow2(off)) by {
        lemma_mul_is_associative(pow2(off) as int, pow2((8 - off) as nat) as int, rest as int);
        lemma_mul_is_commutative(pow2(off) as int, hi as int);
    }
    lemma_hoist_over_denominator(d[c as int] as int, hi as int, pow2(off));
    // 2^(8 - off) = 2^m * 2^(8 - off - m)
    lemma_pow2_adds(m, (8 - off - m) as nat);
    assert(hi == pow2(m) * (pow2((8 - off - m) as nat) * rest)) by {
        lemma_mul_is_associative(pow2(m) as int, pow2((8 - off - m) as nat) as int, rest as int);
    }
    lemma_mod_multiples_vanish(
        (pow2((8 - off - m) as nat) * rest) as int,
        (d[c as int] as nat / pow2(off)) as int,
        pow2(m) as int,
    );
}

/// Taking `n + m` bits is taking `n` bits and then `m` more above them.
proof fn lemma_mod_split(x: nat, s: nat, n: nat, m: nat)
    ensures
        (x / pow2(s)) % pow2(n + m) == (x / pow2(s)) % pow2(n) + pow2(n) * ((x / pow2(s + n)) % pow2(m)),
{
    lemma_pow2_pos(s);
    lemma_pow2_pos(n);
    lemma_pow2_pos(m);
    lemma_pow2_adds(n, m);
    lemma_pow2_adds(s, n);
    lemma_mod_breakdown((x / pow2(s)) as int, pow2(n) as int, pow2(m) as int);
    lemma_div_denominator(x as int, pow2(s) as int, pow2(n) as int);
}

proof fn lemma_and_shift(x: u64, mask: u64, off: u64)
    by (bit_vector)
    requires
        off < 64,
    ensures
        (x & (mask << off)) >> off == (x >> off) & mask,
{
}

proof fn lemma_or_disjoint(r: u64, b: u64, k: u64)
    by (bit_vector)
    requires
        k < 64,
        r < (1u64 << k),
    ensures
        (r | (b << k)) == r + (b << k),
{
}

proof fn lemma_or_byte(acc: u64, b: u64)
    by (bit_vector)
    requires
        b < 256,
    ensures
        ((acc << 8u64) | b) == (acc % 0x100_0000_0000_0000) * 256 + b,
{
}

proof fn lemma_and_max(x: u64)
    by (bit_vector)
    ensures
        x & 0xffff_ffff_ffff_ffffu64 == x,
{
}

/// `1 << k` is `2^k`, and `(1 << k) - 1` is the mask of the low `k` bits.
proof fn lemma_one_shl(k: u64)
    requires
        k < 64,
    ensures
        (1u64 << k) == pow2(k as nat),
        (1u64 << k) >= 1,
        ((1u64 << k) - 1) as u64 == low_bits_mask(k as nat) as u64,
{
    lemma_u64_pow2_no_overflow(k as nat);
    lemma_pow2_pos(k as nat);
    lemma_u64_shl_is_mul(1, k);
}

/// One step of building the big-endian window in a 64-bit accumulator.
proof fn lemma_acc_step(acc: u64, b: u8, v: nat)
    requires
        acc as nat == v % pow2(64),
    ensures
        ((acc << 8u64) | (b as u64)) as nat == (v * 256 + b as nat) as nat % pow2(64),
{
    lemma_pow2_facts(0);
    let m56: int = 0x100_0000_0000_0000;
    lemma_or_byte(acc, b as u64);
    let q = acc as int / m56;
    let r = acc as int % m56;
    lemma_fundamental_div_mod(acc as int, m56);
    assert((acc as int) * 256 == q * 0x1_0000_0000_0000_0000 + r * 256) by (nonlinear_arith)
        requires acc as int == m56 * q + r, m56 == 0x100_0000_0000_0000;
    lemma_mod_bound(acc as int, m56);
    lemma_mod_multiples_vanish(q, r * 256 + b, 0x1_0000_0000_0000_0000);
    assert(q * 0x1_0000_0000_0000_0000 == 0x1_0000_0000_0000_0000 * q) by (nonlinear_arith);
    lemma_small_mod((r * 256 + b) as nat, 0x1_0000_0000_0000_0000);
    // (v % M) * 256 + b  ==  v * 256 + b   (mod M)
    lemma_mul_mod_noop_left(v as int, 256, 0x1_0000_0000_0000_0000);
    lemma_add_mod_noop((acc as int) * 256, b as int, 0x1_0000_0000_0000_0000);
    lemma_add_mod_noop(v as int * 256, b as int, 0x1_0000_0000_0000_0000);
    lemma_small_mod(b as nat, 0x1_0000_0000_0000_0000);
}

proof fn lemma_be_value_bound(bytes: Seq<u8>)
    ensures
        be_value(bytes) < pow2(8 * bytes.len()),
    decreases bytes.len(),
{
    lemma_pow2_facts(0);
    if bytes.len() > 0 {
        let n = (bytes.len() - 1) as nat;
        lemma_be_value_bound(bytes.drop_last());
        lemma_pow2_adds(8 * n, 8);
        assert(8 * n + 8 == 8 * bytes.len());
        assert(be_value(bytes) < pow2(8 * bytes.len())) by (nonlinear_arith)
            requires
                be_value(bytes) == be_value(bytes.drop_last()) * 256 + bytes.last() as nat,
                be_value(bytes.drop_last()) < pow2(8 * n),
                pow2(8 * bytes.len()) == pow2(8 * n) * 256,
                bytes.last() < 256;
    }
}

/// On a classic CAN payload (at most 8 bytes) the Motorola window fits in 64
/// bits, so a Motorola signal is exactly its bits of the window read big-endian.
pub proof fn lemma_motorola_window_fits(data: Seq<u8>, start_bit: nat, size: nat)
    requires
        data.len() <= 8,
        motorola_fits(data.len(), start_bit, size),
    ensures
        ({
            let first = start_bit / 8;
            let window = data.subrange(first as int, (first + motorola_byte_count(start_bit, size)) as int);
            motorola_raw(data, start_bit, size) == (be_value(window) / pow2(motorola_shift(start_bit, size))) % pow2(size)
        }),
{
    let first = start_bit / 8;
    let count = motorola_byte_count(start_bit, size);
    let window = data.subrange(first as int, (first + count) as int);
    lemma_be_value_bound(window);
    lemma_pow2_facts(0);
    if count < 8 {
        lemma_pow2_strictly_increases(8 * count, 64);
    }
    lemma_small_mod(be_value(window), pow2(64));
}

/// A Motorola signal that lies inside one byte is read from that byte alone:
/// its most significant bit is bit `start_bit % 8` of byte `start_bit / 8`, and
/// its `size` bits run down from there. So for a `3|4@0` signal the result is
/// the low four bits of byte 0.
pub proof fn lemma_motorola_within_one_byte(data: Seq<u8>, start_bit: nat, size: nat)
    requires
        start_bit / 8 < data.len(),
        1 <= size <= start_bit % 8 + 1,
    ensures
        extract_spec(data, start_bit, size, ByteOrder::BigEndian) == Ok::<u64, DecodeError>(
            ((data[(start_bit / 8) as int] as nat / pow2((start_bit % 8 + 1 - size) as nat)) % pow2(size)) as u64,
        ),
{
    let k = start_bit / 8;
    assert(motorola_byte_count(start_bit, size) == 1);
    assert(motorola_shift(start_bit, size) == start_bit % 8 + 1 - size);
    let window = data.subrange(k as int, (k + 1) as int);
    assert(window.drop_last() =~= Seq::<u8>::empty());
    assert(be_value(Seq::<u8>::empty()) == 0);
    assert(window.last() == data[k as int]);
    assert(be_value(window) == data[k as int] as nat);
    lemma_pow2_facts(0);
    lemma_small_mod(be_value(window), pow2(64));
}

/// Dividing by a positive number never makes a natural number larger.
proof fn lemma_div_is_ordered_by_denominator_one(x: nat, d: nat)
    requires
        d >= 1,
    ensures
        x / d <= x,
{
    vstd::arithmetic::div_mod::lemma_div_is_ordered_by_denominator(x as int, 1, d as int);
}

/// A big-endian value splits into its first byte, weighing `2^(8 * (len - 1))`,
/// and the value of the remaining bytes.
proof fn lemma_be_value_first(w: Seq<u8>)
    requires
        w.len() >= 1,
    ensures
        be_value(w) == pow2(8 * (w.len() - 1) as nat) * w[0] + be_value(w.drop_first()),
    decreases w.len(),
{
    lemma_pow2_facts(0);
    if w.len() == 1 {
        assert(w.drop_last() =~= Seq::<u8>::empty());
        assert(w.drop_first() =~= Seq::<u8>::empty());
        assert(be_value(Seq::<u8>::empty()) == 0);
        assert(w.last() == w[0]);
        assert(be_value(w) == w[0] as nat);
        assert(pow2(8 * (w.len() - 1) as nat) == 1);
    } else {
        let n = (w.len() - 1) as nat;
        let front = w.drop_last();
        let rest = w.drop_first();
        lemma_be_value_first(front);
        assert(front.drop_first() =~= rest.drop_last());
        assert(rest.last() == w.last());
        assert(front[0] == w[0]);
        lemma_pow2_adds(8 * (n - 1) as nat, 8);
        assert(8 * (n - 1) as nat + 8 == 8 * n);
        let p = pow2(8 * (n - 1) as nat);
        assert(be_value(w) == pow2(8 * n) * w[0] + be_value(rest)) by (nonlinear_arith)
            requires
                be_value(w) == be_value(front) * 256 + w.last() as nat,
                be_value(front) == p * w[0] + be_value(rest.drop_last()),
                be_value(rest) == be_value(rest.drop_last()) * 256 + w.last() as nat,
                pow2(8 * n) == p * 256;
        assert(8 * (w.len() - 1) as nat == 8 * n);
    }
}

/// For every Motorola signal on a classic payload (at most 8 bytes), the most
/// significant bit of the result is bit `start_bit % 8` of byte `start_bit / 8`:
/// `start_bit` names where the signal begins, whatever the byte holds.
pub proof fn lemma_motorola_msb_is_start_bit(data: Seq<u8>, start_bit: nat, size: nat)
    requires
        data.len() <= 8,
        1 <= size <= 64,
        motorola_fits(data.len(), start_bit, size),
    ensures
        extract_spec(data, start_bit, size, ByteOrder::BigEndian) matches Ok(r) && r as nat / pow2((size - 1) as nat)
            == (data[(start_bit / 8) as int] as nat / pow2(start_bit % 8)) % 2,
{
    let k = start_bit / 8;
    let e = start_bit % 8;
    let count = motorola_byte_count(start_bit, size);
    let shift = motorola_shift(start_bit, size);
    let window = data.subrange(k as int, (k + count) as int);
    lemma_motorola_window_fits(data, start_bit, size);
    let v = be_value(window);
    assert(count >= 1);
    assert(shift + (size - 1) == 8 * (count - 1) + e);
    // the result splits into its top bit and the bits below it
    lemma_mod_split(v, shift, (size - 1) as nat, 1);
    let low = (v / pow2(shift)) % pow2((size - 1) as nat);
    let top = (v / pow2(shift + (size - 1) as nat)) % pow2(1);
    lemma_pow2_pos((size - 1) as nat);
    lemma_mod_bound((v / pow2(shift)) as int, pow2((size - 1) as nat) as int);
    lemma_div_multiples_vanish_fancy(top as int, low as int, pow2((size - 1) as nat) as int);
    // the top bit is bit `e` of the window's first byte
    lemma_be_value_first(window);
    lemma_be_value_bound(window.drop_first());
    assert(window.drop_first().len() == count - 1);
    assert(window[0] == data[k as int]);
    lemma_pow2_pos(8 * (count - 1) as nat);
    lemma_div_multiples_vanish_fancy(
        window[0] as int,
        be_value(window.drop_first()) as int,
        pow2(8 * (count - 1) as nat) as int,
    );
    lemma_pow2_adds(8 * (count - 1) as nat, e);
    lemma_pow2_pos(e);
    lemma_div_denominator(v as int, pow2(8 * (count - 1) as nat) as int, pow2(e) as int);
    lemma2_to64();
    // the result fits in 64 bits
    lemma_pow2_pos(size);
    lemma_mod_bound((v / pow2(shift)) as int, pow2(size) as int);
    if size < 64 {
        lemma_pow2_strictly_increases(size, 64);
    }
    lemma_pow2_facts(0);
}

/// An Intel signal that lies inside one byte is read from that byte alone: its
/// least significant bit is bit `start_bit % 8` of byte `start_bit / 8`, and its
/// `size` bits run up from there.
pub proof fn lemma_intel_within_one_byte(data: Seq<u8>, start_bit: nat, size: nat)
    requires
        start_bit / 8 < data.len(),
        1 <= size,
        start_bit % 8 + size <= 8,
    ensures
        extract_spec(data, start_bit, size, ByteOrder::LittleEndian) == Ok::<u64, DecodeError>(
            ((data[(start_bit / 8) as int] as nat / pow2(start_bit % 8)) % pow2(size)) as u64,
        ),
{
    lemma_le_chunk(data, start_bit / 8, start_bit % 8, size);
    assert(8 * (start_bit / 8) + start_bit % 8 == start_bit);
}

/// Whatever the byte order, an extracted signal holds no more than `size` bits.
pub proof fn lemma_extracted_fits_size(data: Seq<u8>, start_bit: nat, size: nat, byte_order: ByteOrder)
    requires
        1 <= size <= 64,
    ensures
        extract_spec(data, start_bit, size, byte_order) matches Ok(r) ==> (r as nat) < pow2(size),
{
    lemma_pow2_pos(size);
    lemma2_to64();
    lemma_pow2_facts(0);
    if size < 64 {
        lemma_pow2_strictly_increases(size, 64);
    }
    match byte_order {
        ByteOrder::LittleEndian => {
            lemma_mod_bound((le_value(data) / pow2(start_bit)) as int, pow2(size) as int);
        },
        ByteOrder::BigEndian => {
            let first = start_bit / 8;
            let window = data.subrange(first as int, (first + motorola_byte_count(start_bit, size)) as int);
            lemma_mod_bound(
                ((be_value(window) % pow2(64)) / pow2(motorola_shift(start_bit, size))) as int,
                pow2(size) as int,
            );
        },
    }
}

/// A decoded value stands for the same `size` raw bits (it equals the raw value
/// modulo `2^size`); a signed one lies in the two's complement range of its
/// size, and an unsigned one below `2^size`. Together these fix the value.
pub proof fn lemma_decoded_range(raw: nat, size: nat, value_type: ValueType)
    requires
        1 <= size,
        raw < pow2(size),
    ensures
        interpret_raw(raw, size, value_type) % (pow2(size) as int) == raw,
        value_type == ValueType::Unsigned ==> 0 <= interpret_raw(raw, size, value_type) < pow2(size),
        value_type == ValueType::Signed ==> -pow2((size - 1) as nat) <= interpret_raw(raw, size, value_type) < pow2((size - 1) as nat),
{
    lemma_pow2_adds((size - 1) as nat, 1);
    lemma2_to64();
    lemma_pow2_pos(size);
    lemma_small_mod(raw, pow2(size));
    lemma_mod_multiples_vanish(-1, raw as int, pow2(size) as int);
}

/// Extracts the raw bits of a signal from a payload.
///
/// For Intel order the bits `[start_bit, start_bit + size)` of the payload, read
/// little-endian, are returned; for Motorola order `start_bit` is the position of
/// the signal's most significant bit and the window of bytes that the signal
/// touches is read big-endian. The call fails when the payload is too short.
pub fn extract_signal_value(data: &[u8], start_bit: usize, size: usize, byte_order: ByteOrder) -> (r: Result<u64, DecodeError>)
    requires
        size <= 64,
    ensures
        r == extract_spec(data@, start_bit as nat, size as nat, byte_order),
{
    match byte_order {
        ByteOrder::LittleEndian => extract_intel(data, start_bit, size),
        ByteOrder::BigEndian => extract_motorola(data, start_bit, size),
    }
}

fn extract_intel(data: &[u8], start_bit: usize, size: usize) -> (r: Result<u64, DecodeError>)
    requires
        size <= 64,
    ensures
        r == extract_spec(data@, start_bit as nat, size as nat, ByteOrder::LittleEndian),
{
    let ghost d = data@;
    let mut result: u64 = 0;
    let start_byte = start_bit / 8;
    let mut remaining_bits: usize = size;
    let mut current_byte: usize = start_byte;
    let mut bit_offset: usize = start_bit % 8;
    proof {
        lemma_pow2_facts(0);
        assert(intel_raw(d, start_bit as nat, 0) == 0);
    }
    while remaining_bits > 0 && current_byte < data.len()
        invariant
            size <= 64,
            d == data@,
            remaining_bits <= size,
            bit_offset < 8,
            current_byte >= start_byte,
            start_byte == start_bit / 8,
            current_byte == start_byte ==> bit_offset == start_bit % 8,
            current_byte > start_byte ==> bit_offset == 0,
            current_byte > start_byte ==> current_byte <= data.len(),
            remaining_bits > 0 ==> start_bit + (size - remaining_bits) == 8 * current_byte + bit_offset,
            remaining_bits == 0 && size > 0 ==> start_bit + size <= 8 * current_byte && current_byte <= data.len(),
            result as nat == intel_raw(d, start_bit as nat, (size - remaining_bits) as nat),
        decreases remaining_bits,
    {
        let room = 8 - bit_offset;
        let bits_in_this_byte = if remaining_bits < room { remaining_bits } else { room };
        let m = bits_in_this_byte as u64;
        let off = bit_offset as u64;
        let consumed = (size - remaining_bits) as u64;
        proof {
            lemma_one_shl(m);
        }
        let mask: u64 = ((1u64 << m) - 1) << off;
        let byte_value: u64 = ((data[current_byte] as u64) & mask) >> off;
        proof {
            let x = data[current_byte as int] as u64;
            lemma_and_shift(x, ((1u64 << m) - 1) as u64, off);
            lemma_u64_shr_is_div(x, off);
            lemma_u64_low_bits_mask_is_mod(x >> off, m as nat);
            assert(byte_value as nat == (x as nat / pow2(off as nat)) % pow2(m as nat));
            lemma_le_chunk(d, current_byte as nat, off as nat, m as nat);
            lemma_pow2_pos(m as nat);
            lemma_mod_bound((x as nat / pow2(off as nat)) as int, pow2(m as nat) as int);
            // the shifted chunk fits in 64 bits
            lemma_pow2_adds(m as nat, consumed as nat);
            lemma_pow2_pos(consumed as nat);
            lemma_mul_inequality(byte_value as int + 1, pow2(m as nat) as int, pow2(consumed as nat) as int);
            assert(m + consumed <= 64);
            if m + consumed < 64 {
                lemma_pow2_strictly_increases((m + consumed) as nat, 64);
            }
            assert(pow2(m as nat) * pow2(consumed as nat) == pow2((m + consumed) as nat));
            lemma_mul_is_commutative(byte_value as int, pow2(consumed as nat) as int);
            lemma_pow2_facts(0);
            assert(byte_value * pow2(consumed as nat) <= u64::MAX) by (nonlinear_arith)
                requires
                    (byte_value + 1) * pow2(consumed as nat) <= pow2(m as nat) * pow2(consumed as nat),
                    pow2(m as nat) * pow2(consumed as nat) == pow2((m + consumed) as nat),
                    pow2((m + consumed) as nat) <= pow2(64),
                    pow2(64) == 0x1_0000_0000_0000_0000,
                    pow2(consumed as nat) >= 1;
            lemma_u64_shl_is_mul(byte_value, consumed);
            lemma_one_shl(consumed);
            lemma_pow2_pos(start_bit as nat);
            lemma_mod_bound((le_value(d) / pow2(start_bit as nat)) as int, pow2(consumed as nat) as int);
            lemma_or_disjoint(result, byte_value, consumed);
            lemma_mod_split(le_value(d), start_bit as nat, consumed as nat, m as nat);
        }
        result = result | (byte_value << consumed);
        remaining_bits = remaining_bits - bits_in_this_byte;
        current_byte = current_byte + 1;
        bit_offset = 0;
    }
    if remaining_bits > 0 {
        return Err(DecodeError::NotEnoughData {
            byte_order: ByteOrder::LittleEndian,
            start_bit,
            size_bits: size,
            data_len: data.len(),
        });
    }
    Ok(result)
}

fn extract_motorola(data: &[u8], start_bit: usize, size: usize) -> (r: Result<u64, DecodeError>)
    requires
        size <= 64,
    ensures
        r == extract_spec(data@, start_bit as nat, size as nat, ByteOrder::BigEndian),
{
    let ghost d = data@;
    let start_byte = start_bit / 8;
    let start_bit_in_byte = start_bit % 8;
    let span_bits = (7 - start_bit_in_byte) + size;
    let byte_count = (span_bits + 7) / 8;
    assert(byte_count == motorola_byte_count(start_bit as nat, size as nat));
    assert(start_byte + byte_count <= usize::MAX) by {
        assert(start_byte <= usize::MAX / 8);
    }
    if start_byte + byte_count > data.len() {
        return Err(DecodeError::NotEnoughData {
            byte_order: ByteOrder::BigEndian,
            start_bit,
            size_bits: size,
            data_len: data.len(),
        });
    }
    proof {
        lemma_pow2_facts(0);
    }
    let mut acc: u64 = 0;
    let mut i: usize = 0;
    while i < byte_count
        invariant
            d == data@,
            i <= byte_count,
            start_byte + byte_count <= data.len(),
            acc as nat == be_value(d.subrange(start_byte as int, start_byte + i)) % pow2(64),
        decreases byte_count - i,
    {
        let b = data[start_byte + i];
        proof {
            let w = d.subrange(start_byte as int, start_byte + i + 1);
            assert(w.drop_last() =~= d.subrange(start_byte as int, start_byte + i));
            assert(w.last() == b);
            lemma_acc_step(acc, b, be_value(d.subrange(start_byte as int, start_byte + i)));
        }
        acc = (acc << 8u64) | (b as u64);
        i = i + 1;
    }
    let total_bits = byte_count * 8;
    let shift = total_bits - (7 - start_bit_in_byte) - size;
    assert(shift < 8);
    let mask: u64 = if size == 64 {
        0xffff_ffff_ffff_ffffu64
    } else {
        proof {
            lemma_one_shl(size as u64);
        }
        (1u64 << (size as u64)) - 1
    };
    let result = (acc >> (shift as u64)) & mask;
    proof {
        lemma_u64_shr_is_div(acc, shift as u64);
        let y = acc >> (shift as u64);
        if size == 64 {
            lemma_and_max(y);
            lemma_small_mod(y as nat, pow2(64));
        } else {
            lemma_u64_low_bits_mask_is_mod(y, size as nat);
        }
    }
    Ok(result)
}

/// Decodes the raw number that a signal carries: its bits are extracted and, for a
/// signed signal, read as two's complement over `size` bits. Factor and offset are
/// applied by the caller. Sizes of 0 and above 64 bits are rejected.
pub fn decode_signal_value(
    start_bit: u64,
    size: u64,
    byte_order: ByteOrder,
    value_type: ValueType,
    data: &[u8],
) -> (r: Result<i128, DecodeError>)
    ensures
        r == decode_signal_spec(start_bit, size, byte_order, value_type, data@),
{
    if size == 0 {
        return Err(DecodeError::InvalidSignalSize { size: 0 });
    }
    if size > 64 {
        return Err(DecodeError::InvalidSignalSize { size });
    }
    let raw_value = match extract_signal_value(data, start_bit as usize, size as usize, byte_order) {
        Ok(v) => v,
        Err(e) => return Err(e),
    };
    let value: i128 = match value_type {
        ValueType::Signed => {
            let sign_bit = size - 1;
            proof {
                lemma_one_shl(sign_bit);
                lemma_pow2_adds(sign_bit as nat, 1);
                lemma2_to64();
                lemma_u64_pow2_no_overflow(sign_bit as nat);
            }
            if raw_value >= (1u64 << sign_bit) {
                // negative number: extend the sign
                (raw_value as i128) - ((1u64 << sign_bit) as i128) * 2
            } else {
                raw_value as i128
            }
        },
        ValueType::Unsigned => raw_value as i128,
    };
    Ok(value)
}

} // verus!
