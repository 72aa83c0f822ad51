//! Fixed-width integers as bytes.
use vstd::prelude::*;

verus! {

/// The `width` low bytes of `value`, least significant first.
pub open spec fn le_bytes(value: nat, width: nat) -> Seq<u8>
    decreases width,
{
    if width == 0 {
        Seq::empty()
    } else {
        seq![(value % 256) as u8] + le_bytes(value / 256, (width - 1) as nat)
    }
}

/// The number whose bytes are `bytes`, least significant first.
pub open spec fn le_value(bytes: Seq<u8>) -> nat
    decreases bytes.len(),
{
    if bytes.len() == 0 {
        0
    } else {
        bytes[0] as nat + 256 * le_value(bytes.drop_first())
    }
}

/// The number whose bytes are `bytes`, most significant first.
pub open spec fn be_value(bytes: Seq<u8>) -> nat
    decreases bytes.len(),
{
    if bytes.len() == 0 {
        0
    } else {
        256 * be_value(bytes.drop_last()) + bytes.last() as nat
    }
}

/// Two's complement: the unsigned number that stands for `value` below `modulus`.
pub open spec fn twos_complement(value: int, modulus: int) -> nat {
    (if value < 0 { value + modulus } else { value }) as nat
}

/// Two's complement read back.
pub open spec fn signed_value(value: nat, modulus: int) -> int {
    if 2 * value < modulus { value as int } else { value - modulus }
}

pub open spec fn i16_le(value: i16) -> Seq<u8> {
    le_bytes(twos_complement(value as int, 0x1_0000), 2)
}

pub open spec fn i64_le(value: i64) -> Seq<u8> {
    le_bytes(twos_complement(value as int, 0x1_0000_0000_0000_0000), 8)
}

pub open spec fn i16_of_le(bytes: Seq<u8>) -> int {
    signed_value(le_value(bytes), 0x1_0000)
}

pub open spec fn i64_of_le(bytes: Seq<u8>) -> int {
    signed_value(le_value(bytes), 0x1_0000_0000_0000_0000)
}

/// All the samples of `values` as little-endian bytes, in order.
pub open spec fn i16s_le(values: Seq<i16>) -> Seq<u8>
    decreases values.len(),
{
    if values.len() == 0 {
        Seq::empty()
    } else {
        i16s_le(values.drop_last()) + i16_le(values.last())
    }
}

/// All the numbers of `values` as little-endian bytes, in order.
pub open spec fn i64s_le(values: Seq<i64>) -> Seq<u8>
    decreases values.len(),
{
    if values.len() == 0 {
        Seq::empty()
    } else {
        i64s_le(values.drop_last()) + i64_le(values.last())
    }
}

pub proof fn lemma_le_bytes_len(value: nat, width: nat)
    ensures
        le_bytes(value, width).len() == width,
    decreases width,
{
    if width > 0 {
        lemma_le_bytes_len(value / 256, (width - 1) as nat);
    }
}

/// Little-endian bytes read back as the number they were written for.
pub proof fn lemma_le_round_trip(value: nat, width: nat)
    requires
        value < vstd::arithmetic::power::pow(256, width),
    ensures
        le_value(le_bytes(value, width)) == value,
    decreases width,
{
    reveal(vstd::arithmetic::power::pow);
    if width > 0 {
        let rest = le_bytes(value / 256, (width - 1) as nat);
        let p = vstd::arithmetic::power::pow(256, (width - 1) as nat);
        assert(vstd::arithmetic::power::pow(256, width) == 256 * p);
        assert(value / 256 < p) by (nonlinear_arith)
            requires
                value < 256 * p,
        ;
        lemma_le_round_trip(value / 256, (width - 1) as nat);
        assert(le_bytes(value, width).drop_first() =~= rest);
    }
}

/// An `i16` reads back from its bytes.
pub proof fn lemma_i16_round_trip(value: i16)
    ensures
        i16_le(value).len() == 2,
        i16_of_le(i16_le(value)) == value,
{
    reveal_with_fuel(vstd::arithmetic::power::pow, 3);
    lemma_le_bytes_len(twos_complement(value as int, 0x1_0000), 2);
    lemma_le_round_trip(twos_complement(value as int, 0x1_0000), 2);
}

/// An `i64` reads back from its bytes.
pub proof fn lemma_i64_round_trip(value: i64)
    ensures
        i64_le(value).len() == 8,
        i64_of_le(i64_le(value)) == value,
{
    reveal_with_fuel(vstd::arithmetic::power::pow, 9);
    lemma_le_bytes_len(twos_complement(value as int, 0x1_0000_0000_0000_0000), 8);
    lemma_le_round_trip(twos_complement(value as int, 0x1_0000_0000_0000_0000), 8);
}

fn put_le(out: &mut Vec<u8>, value: u64, width: usize)
    ensures
        final(out)@ == old(out)@ + le_bytes(value as nat, width as nat),
{
    let mut rest: u64 = value;
    let mut left: usize = width;
    assert(out@ + le_bytes(value as nat, width as nat) == old(out)@ + le_bytes(
        value as nat,
        width as nat,
    ));
    while left > 0
        invariant
            out@ + le_bytes(rest as nat, left as nat) == old(out)@ + le_bytes(
                value as nat,
                width as nat,
            ),
        decreases left,
    {
        let byte: u8 = (rest % 256) as u8;
        proof {
            let tail = le_bytes((rest / 256) as nat, (left - 1) as nat);
            assert(out@.push(byte) + tail =~= out@ + (seq![byte] + tail));
        }
        out.push(byte);
        rest = rest / 256;
        left = left - 1;
    }
    assert(out@ + Seq::<u8>::empty() =~= out@);
}

/// Appends `value` as two little-endian bytes.
pub fn put_i16_le(out: &mut Vec<u8>, value: i16)
    ensures
        final(out)@ == old(out)@ + i16_le(value),
{
    let bits: u16 = value as u16;
    assert(bits == if value < 0 { value + 0x1_0000 } else { value as int }) by (bit_vector)
        requires
            bits == value as u16,
    ;
    put_le(out, bits as u64, 2);
}

/// Appends `value` as eight little-endian bytes.
pub fn put_i64_le(out: &mut Vec<u8>, value: i64)
    ensures
        final(out)@ == old(out)@ + i64_le(value),
{
    let bits: u64 = value as u64;
    assert(bits == if value < 0 { value + 0x1_0000_0000_0000_0000 } else { value as int }) by (bit_vector)
        requires
            bits == value as u64,
    ;
    put_le(out, bits, 8);
}

/// Reads the `i16` at byte `at`.
pub fn get_i16_le(bytes: &[u8], at: usize) -> (value: i16)
    requires
        at + 2 <= bytes@.len(),
    ensures
        value == i16_of_le(bytes@.subrange(at as int, at + 2)),
{
    let low: u8 = bytes[at];
    let high: u8 = bytes[at + 1];
    let bits: u16 = low as u16 + 256 * high as u16;
    proof {
        let s = bytes@.subrange(at as int, at + 2);
        assert(s.drop_first().drop_first() =~= Seq::<u8>::empty());
        assert(s.drop_first()[0] == high);
        assert(le_value(s.drop_first().drop_first()) == 0);
        assert(le_value(s.drop_first()) == high as nat);
        assert(le_value(s) == bits as nat);
    }
    let value: i16 = bits as i16;
    assert(value == if 2 * bits < 0x1_0000 { bits as int } else { bits - 0x1_0000 }) by (bit_vector)
        requires
            value == bits as i16,
    ;
    value
}

fn get_le(bytes: &[u8], at: usize, width: usize) -> (value: u64)
    requires
        at + width <= bytes@.len(),
        width <= 8,
    ensures
        value as nat == le_value(bytes@.subrange(at as int, at + width)),
        value < vstd::arithmetic::power::pow(256, width as nat),
    decreases width,
{
    proof {
        reveal_with_fuel(vstd::arithmetic::power::pow, 9);
    }
    if width == 0 {
        assert(bytes@.subrange(at as int, at as int) =~= Seq::<u8>::empty());
        0
    } else {
        assert(at < bytes.len());
        let rest: u64 = get_le(bytes, at + 1, width - 1);
        proof {
            let s = bytes@.subrange(at as int, at + width);
            assert(s.drop_first() =~= bytes@.subrange(at + 1, at + width));
        }
        bytes[at] as u64 + 256 * rest
    }
}

/// Reads the `i64` at byte `at`.
pub fn get_i64_le(bytes: &[u8], at: usize) -> (value: i64)
    requires
        at + 8 <= bytes@.len(),
    ensures
        value == i64_of_le(bytes@.subrange(at as int, at + 8)),
{
    let bits: u64 = get_le(bytes, at, 8);
    let value: i64 = bits as i64;
    assert(value == if 2 * bits < 0x1_0000_0000_0000_0000 { bits as int } else { bits - 0x1_0000_0000_0000_0000 })
        by (bit_vector)
        requires
            value == bits as i64,
    ;
    value
}

/// The big-endian number in `bytes`.
pub fn be_u64(bytes: &[u8]) -> (value: u64)
    requires
        bytes@.len() <= 8,
    ensures
        value as nat == be_value(bytes@),
{
    let mut value: u64 = 0;
    let mut i: usize = 0;
    assert(bytes@.take(0) =~= Seq::<u8>::empty());
    proof {
        reveal_with_fuel(vstd::arithmetic::power::pow, 9);
    }
    while i < bytes.len()
        invariant
            i <= bytes@.len() <= 8,
            value as nat == be_value(bytes@.take(i as int)),
            value < vstd::arithmetic::power::pow(256, i as nat),
        decreases bytes@.len() - i,
    {
        proof {
            reveal_with_fuel(vstd::arithmetic::power::pow, 9);
            assert(bytes@.take(i + 1).drop_last() =~= bytes@.take(i as int));
        }
        value = 256 * value + bytes[i] as u64;
        i = i + 1;
    }
    assert(bytes@.take(i as int) =~= bytes@);
    value
}

proof fn lemma_i64_len(value: i64)
    ensures
        i64_le(value).len() == 8,
{
    lemma_le_bytes_len(twos_complement(value as int, 0x1_0000_0000_0000_0000), 8);
}

proof fn lemma_i16_len(value: i16)
    ensures
        i16_le(value).len() == 2,
{
    lemma_le_bytes_len(twos_complement(value as int, 0x1_0000), 2);
}

proof fn lemma_i64_at(values: Seq<i64>, i: int)
    requires
        0 <= i < values.len(),
    ensures
        i64s_le(values).len() == 8 * values.len(),
        i64s_le(values).subrange(8 * i, 8 * i + 8) == i64_le(values[i]),
    decreases values.len(),
{
    let shorter = values.drop_last();
    if shorter.len() > 0 {
        lemma_i64_at(shorter, if i < shorter.len() { i } else { 0 });
    }
    assert(i64s_le(values) == i64s_le(shorter) + i64_le(values.last()));
    assert(i64s_le(shorter).len() == 8 * shorter.len());
    lemma_i64_len(values.last());
    if i < shorter.len() {
        assert(i64s_le(values).subrange(8 * i, 8 * i + 8) =~= i64s_le(shorter).subrange(
            8 * i,
            8 * i + 8,
        ));
    } else {
        assert(i64s_le(values).subrange(8 * i, 8 * i + 8) =~= i64_le(values.last()));
    }
}

proof fn lemma_i16_at(values: Seq<i16>, i: int)
    requires
        0 <= i < values.len(),
    ensures
        i16s_le(values).len() == 2 * values.len(),
        i16s_le(values).subrange(2 * i, 2 * i + 2) == i16_le(values[i]),
    decreases values.len(),
{
    let shorter = values.drop_last();
    if shorter.len() > 0 {
        lemma_i16_at(shorter, if i < shorter.len() { i } else { 0 });
    }
    assert(i16s_le(values) == i16s_le(shorter) + i16_le(values.last()));
    assert(i16s_le(shorter).len() == 2 * shorter.len());
    lemma_i16_len(values.last());
    if i < shorter.len() {
        assert(i16s_le(values).subrange(2 * i, 2 * i + 2) =~= i16s_le(shorter).subrange(
            2 * i,
            2 * i + 2,
        ));
    } else {
        assert(i16s_le(values).subrange(2 * i, 2 * i + 2) =~= i16_le(values.last()));
    }
}

/// A number without its `count` low bytes.
spec fn shifted(value: nat, count: nat) -> nat
    decreases count,
{
    if count == 0 {
        value
    } else {
        shifted(value / 256, (count - 1) as nat)
    }
}

proof fn lemma_le_byte(value: nat, width: nat, k: nat)
    requires
        k < width,
    ensures
        le_bytes(value, width).len() == width,
        le_bytes(value, width)[k as int] == shifted(value, k) % 256,
    decreases width,
{
    lemma_le_bytes_len(value, width);
    lemma_le_bytes_len(value / 256, (width - 1) as nat);
    if k > 0 {
        lemma_le_byte(value / 256, (width - 1) as nat, (k - 1) as nat);
    }
}

proof fn lemma_shifted(value: nat)
    ensures
        shifted(value, 0) == value,
        shifted(value, 1) == value / 0x100,
        shifted(value, 2) == value / 0x1_0000,
        shifted(value, 3) == value / 0x100_0000,
        shifted(value, 4) == value / 0x1_0000_0000,
        shifted(value, 5) == value / 0x100_0000_0000,
        shifted(value, 6) == value / 0x1_0000_0000_0000,
        shifted(value, 7) == value / 0x100_0000_0000_0000,
{
    reveal_with_fuel(shifted, 8);
}

/// A 64-bit number goes out as eight bytes of its two's complement, the least
/// significant first, and numbers follow each other without a gap.
pub proof fn law_i64_is_little_endian(values: Seq<i64>, i: int)
    requires
        0 <= i < values.len(),
    ensures
        i64s_le(values).len() == 8 * values.len(),
        ({
            let bytes = i64s_le(values);
            let bits: int = if values[i] < 0 {
                values[i] + 0x1_0000_0000_0000_0000
            } else {
                values[i] as int
            };
            &&& bytes[8 * i] == bits % 0x100
            &&& bytes[8 * i + 1] == (bits / 0x100) % 0x100
            &&& bytes[8 * i + 2] == (bits / 0x1_0000) % 0x100
            &&& bytes[8 * i + 3] == (bits / 0x100_0000) % 0x100
            &&& bytes[8 * i + 4] == (bits / 0x1_0000_0000) % 0x100
            &&& bytes[8 * i + 5] == (bits / 0x100_0000_0000) % 0x100
            &&& bytes[8 * i + 6] == (bits / 0x1_0000_0000_0000) % 0x100
            &&& bytes[8 * i + 7] == (bits / 0x100_0000_0000_0000) % 0x100
        }),
{
    lemma_i64_at(values, i);
    let bits = twos_complement(values[i] as int, 0x1_0000_0000_0000_0000);
    let bytes = i64s_le(values);
    assert forall|k: int| 0 <= k < 8 implies #[trigger] bytes[8 * i + k] == shifted(bits, k as nat)
        % 256 by {
        assert(bytes.subrange(8 * i, 8 * i + 8)[k] == bytes[8 * i + k]);
        lemma_le_byte(bits, 8, k as nat);
    }
    assert(bytes[8 * i + 0] == shifted(bits, 0) % 256);
    assert(bytes[8 * i + 1] == shifted(bits, 1) % 256);
    assert(bytes[8 * i + 2] == shifted(bits, 2) % 256);
    assert(bytes[8 * i + 3] == shifted(bits, 3) % 256);
    assert(bytes[8 * i + 4] == shifted(bits, 4) % 256);
    assert(bytes[8 * i + 5] == shifted(bits, 5) % 256);
    assert(bytes[8 * i + 6] == shifted(bits, 6) % 256);
    assert(bytes[8 * i + 7] == shifted(bits, 7) % 256);
    lemma_shifted(bits);
}

/// A 16-bit number goes out as two bytes of its two's complement, the least
/// significant first, and numbers follow each other without a gap.
pub proof fn law_i16_is_little_endian(values: Seq<i16>, i: int)
    requires
        0 <= i < values.len(),
    ensures
        i16s_le(values).len() == 2 * values.len(),
        ({
            let bytes = i16s_le(values);
            let bits: int = if values[i] < 0 {
                values[i] + 0x1_0000
            } else {
                values[i] as int
            };
            &&& bytes[2 * i] == bits % 0x100
            &&& bytes[2 * i + 1] == bits / 0x100
        }),
{
    lemma_i16_at(values, i);
    reveal_with_fuel(le_bytes, 3);
    let one = i16_le(values[i]);
    assert forall|k: int| 0 <= k < 2 implies i16s_le(values)[2 * i + k] == #[trigger] one[k] by {
        assert(i16s_le(values).subrange(2 * i, 2 * i + 2)[k] == i16s_le(values)[2 * i + k]);
    }
    let bits = twos_complement(values[i] as int, 0x1_0000);
    let s1 = le_bytes(bits / 256, 1);
    assert(one[0] == bits % 256);
    assert(one[1] == s1[0]);
}

/// Two bytes read as a signed number, and eight do, the least significant
/// first; eight bytes read as an unsigned number, the most significant first.
pub proof fn law_bytes_are_read_by_weight(bytes: Seq<u8>)
    ensures
        bytes.len() == 2 ==> i16_of_le(bytes) == ({
            let bits = bytes[0] + 0x100 * bytes[1];
            if bits < 0x8000 {
                bits
            } else {
                bits - 0x1_0000
            }
        }),
        bytes.len() == 8 ==> i64_of_le(bytes) == ({
            let bits = bytes[0] + 0x100 * bytes[1] + 0x1_0000 * bytes[2] + 0x100_0000 * bytes[3] + 0x1_0000_0000 * bytes[4] + 0x100_0000_0000 * bytes[5] + 0x1_0000_0000_0000 * bytes[6] + 0x100_0000_0000_0000 * bytes[7];
            if bits < 0x8000_0000_0000_0000 {
                bits
            } else {
                bits - 0x1_0000_0000_0000_0000
            }
        }),
        bytes.len() == 8 ==> be_value(bytes) == bytes[7] + 0x100 * bytes[6] + 0x1_0000 * bytes[5] + 0x100_0000 * bytes[4] + 0x1_0000_0000 * bytes[3] + 0x100_0000_0000 * bytes[2] + 0x1_0000_0000_0000 * bytes[1] + 0x100_0000_0000_0000 * bytes[0],
{
    reveal_with_fuel(le_value, 9);
    reveal_with_fuel(be_value, 9);
    if bytes.len() == 2 {
        let b1 = bytes.drop_first();
        assert(b1[0] == bytes[1]);
        assert(b1.drop_first().len() == 0);
    }
    if bytes.len() == 8 {
        let b1 = bytes.drop_first();
        let b2 = b1.drop_first();
        let b3 = b2.drop_first();
        let b4 = b3.drop_first();
        let b5 = b4.drop_first();
        let b6 = b5.drop_first();
        let b7 = b6.drop_first();
        assert(b1[0] == bytes[1] && b2[0] == bytes[2] && b3[0] == bytes[3] && b4[0] == bytes[4]);
        assert(b5[0] == bytes[5] && b6[0] == bytes[6] && b7[0] == bytes[7]);
        assert(b7.drop_first().len() == 0);
        let e1 = bytes.drop_last();
        let e2 = e1.drop_last();
        let e3 = e2.drop_last();
        let e4 = e3.drop_last();
        let e5 = e4.drop_last();
        let e6 = e5.drop_last();
        let e7 = e6.drop_last();
        assert(e1.last() == bytes[6] && e2.last() == bytes[5] && e3.last() == bytes[4]);
        assert(e4.last() == bytes[3] && e5.last() == bytes[2] && e6.last() == bytes[1]);
        assert(e7.last() == bytes[0]);
        assert(e7.drop_last().len() == 0);
    }
}

} // verus!
