use vstd::arithmetic::power2::{lemma_pow2_unfold, pow2};
use vstd::prelude::*;

verus! {

/// Outcome of reading one field from a bit stream at some bit position.
pub enum Step<T> {
    /// The field's value and the bit position just after it.
    Val(T, int),
    /// The stream ended before the field was complete.
    End,
    /// Reading the field overflows an integer of the reader.
    Trap,
}

/// A bit stream: bytes read most significant bit first, and the index of
/// the first byte whose reading overflows the reader, if there is one.
pub struct BitSrc {
    pub bytes: Seq<u8>,
    pub trap: Option<int>,
}

/// The outcome of a failed step, carried over to a step of another type.
pub open spec fn stop<T, U>(s: Step<T>) -> Step<U> {
    if s is Trap {
        Step::Trap
    } else {
        Step::End
    }
}

/// Bit `i` of `bytes`, counting from the most significant bit of the first byte.
pub open spec fn bit_of(bytes: Seq<u8>, i: int) -> u8 {
    (bytes[i / 8] >> ((7 - i % 8) as u8)) & 1u8
}

/// A bit is 0 or 1.
pub proof fn lemma_bit_of_le_1(bytes: Seq<u8>, i: int)
    ensures
        bit_of(bytes, i) <= 1,
{
    let x = bytes[i / 8];
    let k = (7 - i % 8) as u8;
    assert((x >> k) & 1u8 <= 1u8) by (bit_vector);
}

/// Reads the bit at position `i`.
pub open spec fn read_bit(src: BitSrc, i: int) -> Step<u8> {
    if src.trap is Some && i >= 8 * src.trap.unwrap() {
        Step::Trap
    } else if 0 <= i < 8 * src.bytes.len() {
        Step::Val(bit_of(src.bytes, i), i + 1)
    } else {
        Step::End
    }
}

/// Reads `n` bits at `pos` as an unsigned big-endian number of unbounded size.
pub open spec fn read_bits_int(src: BitSrc, pos: int, n: nat) -> Step<int>
    decreases n,
{
    if n == 0 {
        Step::Val(0, pos)
    } else {
        let prefix = read_bits_int(src, pos, (n - 1) as nat);
        match prefix {
            Step::Val(v, p) => match read_bit(src, p) {
                Step::Val(b, q) => Step::Val(2 * v + b, q),
                Step::End => Step::End,
                Step::Trap => Step::Trap,
            },
            _ => stop(prefix),
        }
    }
}

/// Reads `n` bits at `pos` into a `u32`, keeping the last 32 of them.
pub open spec fn read_bits(src: BitSrc, pos: int, n: nat) -> Step<u32> {
    let r = read_bits_int(src, pos, n);
    match r {
        Step::Val(v, p) => Step::Val((v % 0x1_0000_0000) as u32, p),
        _ => stop(r),
    }
}

/// Counts the zero bits at `pos` up to the next one bit, adding to `acc`;
/// the position returned is just after that one bit. The count is kept in a
/// `usize`, so counting past `usize::MAX` overflows.
pub open spec fn count_zeros(src: BitSrc, pos: int, acc: nat) -> Step<nat>
    decreases 8 * src.bytes.len() - pos,
{
    let b = read_bit(src, pos);
    match b {
        Step::Val(bit, p) => if bit == 1 {
            Step::Val(acc, p)
        } else if acc >= usize::MAX {
            Step::Trap
        } else {
            count_zeros(src, p, acc + 1)
        },
        _ => stop(b),
    }
}

/// Reads an unsigned Exp-Golomb code `ue(v)` at `pos`. A code with 32 or
/// more leading zeros overflows the `u32` shift that builds its value.
pub open spec fn read_ue(src: BitSrc, pos: int) -> Step<u32> {
    let z = count_zeros(src, pos, 0);
    match z {
        Step::Val(zeros, p) => if zeros == 0 {
            Step::Val(0, p)
        } else {
            let r = read_bits(src, p, zeros);
            match r {
                Step::Val(v, q) => if zeros >= 32 {
                    Step::Trap
                } else {
                    Step::Val((pow2(zeros) - 1 + v) as u32, q)
                },
                _ => stop(r),
            }
        },
        _ => stop(z),
    }
}

/// The bit at position `i` as a `u32`.
pub open spec fn read_bit32(src: BitSrc, i: int) -> Step<u32> {
    let b = read_bit(src, i);
    match b {
        Step::Val(v, p) => Step::Val(v as u32, p),
        _ => stop(b),
    }
}

/// The signed value of the Exp-Golomb code number `u` (`se(v)`): 0, 1, -1, 2, -2, ...
/// The code number is first taken as an `i32`, wrapping above `i32::MAX`.
pub open spec fn se_value(u: u32) -> i32 {
    let s: int = if u < 0x8000_0000 { u as int } else { u as int - 0x1_0000_0000 };
    if u % 2 == 0 {
        (-(s / 2)) as i32
    } else {
        ((s + 1) / 2) as i32
    }
}

/// Signed Exp-Golomb values lie within `[-2^30, 2^30]`.
pub proof fn lemma_se_value_bound(u: u32)
    requires
        u != 0x7fff_ffff,
    ensures
        -0x4000_0000 <= se_value(u) <= 0x4000_0000,
{
}

/// Reads a signed Exp-Golomb code `se(v)` at `pos`. The code number
/// `i32::MAX` overflows the `+ 1` that maps it.
pub open spec fn read_se(src: BitSrc, pos: int) -> Step<i32> {
    let u = read_ue(src, pos);
    match u {
        Step::Val(v, p) => if v == 0x7fff_ffff {
            Step::Trap
        } else {
            Step::Val(se_value(v), p)
        },
        _ => stop(u),
    }
}

/// Whether `r` is what an executable read returns for the step `s`, given the
/// reader's position and overflow flag after the read.
pub open spec fn agrees<T>(s: Step<T>, r: Option<T>, pos: int, overflowed: bool) -> bool {
    match s {
        Step::Val(v, p) => r == Some(v) && pos == p && !overflowed,
        Step::End => r is None && !overflowed,
        Step::Trap => r is None && overflowed,
    }
}

/// Whether `r` is what an executable parse returns for the step `s`, given the
/// reader's overflow flag afterwards (the position is not compared).
pub open spec fn agrees_value<T>(s: Step<T>, r: Option<T>, overflowed: bool) -> bool {
    match s {
        Step::Val(v, _) => r == Some(v) && !overflowed,
        Step::End => r is None && !overflowed,
        Step::Trap => r is None && overflowed,
    }
}

/// A failed read of `m` bits fails in the same way for any longer read.
pub proof fn lemma_read_bits_stops(src: BitSrc, pos: int, m: nat, n: nat)
    requires
        m <= n,
        !(read_bits_int(src, pos, m) is Val),
    ensures
        read_bits_int(src, pos, n) == read_bits_int(src, pos, m),
    decreases n - m,
{
    if m < n {
        lemma_read_bits_stops(src, pos, m, (n - 1) as nat);
    }
}

/// The value of `n` bits lies in `[0, 2^n)`.
pub proof fn lemma_read_bits_bound(src: BitSrc, pos: int, n: nat)
    ensures
        read_bits_int(src, pos, n) matches Step::Val(v, p) ==> 0 <= v < pow2(n) && p == pos + n,
    decreases n,
{
    if n > 0 {
        lemma_read_bits_bound(src, pos, (n - 1) as nat);
        lemma_pow2_unfold(n);
        if let Step::Val(v, p) = read_bits_int(src, pos, (n - 1) as nat) {
            lemma_bit_of_le_1(src.bytes, p);
        }
    } else {
        vstd::arithmetic::power2::lemma2_to64();
    }
}

/// Reading up to 32 bits keeps them all.
pub proof fn lemma_read_bits_small(src: BitSrc, pos: int, n: nat)
    requires
        n <= 32,
    ensures
        read_bits_int(src, pos, n) matches Step::Val(v, p) ==> read_bits(src, pos, n) == Step::Val(
            v as u32,
            p,
        ) && v == v as u32,
{
    lemma_read_bits_bound(src, pos, n);
    if let Step::Val(v, p) = read_bits_int(src, pos, n) {
        assert(pow2(n) <= pow2(32)) by {
            if n < 32 {
                vstd::arithmetic::power2::lemma_pow2_strictly_increases(n, 32);
            }
        }
        assert(pow2(32) == 0x1_0000_0000) by {
            vstd::arithmetic::power2::lemma2_to64();
        }
    }
}

/// Appending one bit to a number kept in 32 bits.
pub proof fn lemma_shift_in_bit(val: u32, b: u8, raw: int)
    requires
        b <= 1,
        raw >= 0,
        val == raw % 0x1_0000_0000,
    ensures
        ((val << 1u32) | (b as u32)) == ((2 * raw + b) % 0x1_0000_0000) as u32,
{
    let bb = b as u32;
    assert(((val << 1u32) | bb) as int == (2 * (val as int) + (bb as int)) % 0x1_0000_0000) by (bit_vector)
        requires bb <= 1;
    assert((2 * (val as int) + b) % 0x1_0000_0000 == (2 * raw + b) % 0x1_0000_0000) by {
        vstd::arithmetic::div_mod::lemma_fundamental_div_mod(raw, 0x1_0000_0000);
        let q = raw / 0x1_0000_0000;
        assert(2 * raw + b == 2 * (val as int) + b + 0x1_0000_0000 * (2 * q)) by (nonlinear_arith)
            requires raw == 0x1_0000_0000 * q + val;
        vstd::arithmetic::div_mod::lemma_mod_multiples_vanish(2 * q, 2 * (val as int) + b, 0x1_0000_0000);
    }
}

/// `1 << z` is `2^z` for shifts below 32.
pub proof fn lemma_one_shl(z: u32)
    requires
        z < 32,
    ensures
        (1u32 << z) == pow2(z as nat),
        pow2(z as nat) <= 0x8000_0000,
{
    vstd::bits::lemma_u32_pow2_no_overflow(z as nat);
    vstd::bits::lemma_u32_shl_is_mul(1, z);
    if z < 31 {
        vstd::arithmetic::power2::lemma_pow2_strictly_increases(z as nat, 31);
    }
    assert(pow2(31) == 0x8000_0000) by {
        vstd::arithmetic::power2::lemma2_to64();
    }
}

} // verus!
