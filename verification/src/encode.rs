//! Packing fixed-width fields into a byte buffer, MSB-first.
//!
//! This is the inverse of the bit field extractor: a run of `n`-bit
//! values becomes a byte buffer whose bit stream carries them back to
//! back, the last byte zero-padded. The contracts state the round trip
//! exactly: every field of the output decodes, by the extractor's own
//! `field_value` / `signed_value` meaning, to the value that was packed,
//! two's-complement boundary values included.

use vstd::prelude::*;
use crate::bits::{byte_bit, field_value, pow2n, signed_value, stream_bit};

verus! {

/// Bit `j` (MSB-first) of the `n`-bit value `v`; 0 or 1.
pub open spec fn nth_bit_of(v: nat, j: int, n: nat) -> nat
    recommends
        0 <= j < n,
{
    v / pow2n((n - 1 - j) as nat) % 2
}

/// A field whose bits are the MSB-first bits of `v` decodes to `v`.
pub proof fn lemma_field_from_bits(bytes: Seq<u8>, start: int, n: nat, v: nat)
    requires
        v < pow2n(n),
        forall|j: int| 0 <= j < n ==> stream_bit(bytes, start + j) == nth_bit_of(v, j, n),
    ensures
        field_value(bytes, start, n) == v,
    decreases n,
{
    if n == 0 {
    } else {
        let m = (n - 1) as nat;
        let half = v / 2;
        assert(pow2n(n) == 2 * pow2n(m));
        assert(half < pow2n(m)) by {
            vstd::arithmetic::div_mod::lemma_fundamental_div_mod(v as int, 2);
        }
        assert forall|j: int| 0 <= j < m implies stream_bit(bytes, start + j) == nth_bit_of(
            half, j, m) by {
            assert(stream_bit(bytes, start + j) == nth_bit_of(v, j, n));
            let p = pow2n((m - 1 - j) as nat);
            crate::bits::lemma_pow2n_pos((m - 1 - j) as nat);
            assert(pow2n((n - 1 - j) as nat) == 2 * p);
            vstd::arithmetic::div_mod::lemma_div_denominator(v as int, 2, p as int);
            assert(half as int / p as int == v as int / (2 * p as int));
            assert(nth_bit_of(half, j, m) == nth_bit_of(v, j, n));
        }
        lemma_field_from_bits(bytes, start, m, half);
        assert(stream_bit(bytes, start + n - 1) == nth_bit_of(v, n - 1, n));
        assert(pow2n(0) == 1) by {
            reveal_with_fuel(pow2n, 1);
        }
        assert(nth_bit_of(v, n - 1, n) == v % 2) by {
            assert(v / pow2n(0) == v);
        }
        assert(field_value(bytes, start, n) == 2 * half + v % 2);
        vstd::arithmetic::div_mod::lemma_fundamental_div_mod(v as int, 2);
    }
}

/// The bits of a byte assembled MSB-first from eight 0-or-1 values are
/// those values.
proof fn lemma_byte_from_bits(b0: u8, b1: u8, b2: u8, b3: u8, b4: u8, b5: u8, b6: u8, b7: u8)
    requires
        b0 < 2, b1 < 2, b2 < 2, b3 < 2, b4 < 2, b5 < 2, b6 < 2, b7 < 2,
    ensures
        b0 * 128 + b1 * 64 + b2 * 32 + b3 * 16 + b4 * 8 + b5 * 4 + b6 * 2 + b7 < 256,
        byte_bit((b0 * 128 + b1 * 64 + b2 * 32 + b3 * 16 + b4 * 8 + b5 * 4 + b6 * 2 + b7) as u8, 0)
            == b0,
        byte_bit((b0 * 128 + b1 * 64 + b2 * 32 + b3 * 16 + b4 * 8 + b5 * 4 + b6 * 2 + b7) as u8, 1)
            == b1,
        byte_bit((b0 * 128 + b1 * 64 + b2 * 32 + b3 * 16 + b4 * 8 + b5 * 4 + b6 * 2 + b7) as u8, 2)
            == b2,
        byte_bit((b0 * 128 + b1 * 64 + b2 * 32 + b3 * 16 + b4 * 8 + b5 * 4 + b6 * 2 + b7) as u8, 3)
            == b3,
        byte_bit((b0 * 128 + b1 * 64 + b2 * 32 + b3 * 16 + b4 * 8 + b5 * 4 + b6 * 2 + b7) as u8, 4)
            == b4,
        byte_bit((b0 * 128 + b1 * 64 + b2 * 32 + b3 * 16 + b4 * 8 + b5 * 4 + b6 * 2 + b7) as u8, 5)
            == b5,
        byte_bit((b0 * 128 + b1 * 64 + b2 * 32 + b3 * 16 + b4 * 8 + b5 * 4 + b6 * 2 + b7) as u8, 6)
            == b6,
        byte_bit((b0 * 128 + b1 * 64 + b2 * 32 + b3 * 16 + b4 * 8 + b5 * 4 + b6 * 2 + b7) as u8, 7)
            == b7,
{
    crate::bits::lemma_pow2n_small();
    let s: u8 = (b0 * 128 + b1 * 64 + b2 * 32 + b3 * 16 + b4 * 8 + b5 * 4 + b6 * 2 + b7) as u8;
    assert(s / 128 % 2 == b0 && s / 64 % 2 == b1 && s / 32 % 2 == b2 && s / 16 % 2 == b3 && s / 8
        % 2 == b4 && s / 4 % 2 == b5 && s / 2 % 2 == b6 && s / 1 % 2 == b7) by (bit_vector)
        requires
            b0 < 2, b1 < 2, b2 < 2, b3 < 2, b4 < 2, b5 < 2, b6 < 2, b7 < 2,
            s == b0 * 128 + b1 * 64 + b2 * 32 + b3 * 16 + b4 * 8 + b5 * 4 + b6 * 2 + b7,
    ;
}

/// 2 to the power `e` as a `u16`, for `e <= 15`.
fn pow_u16(e: usize) -> (r: u16)
    requires
        e <= 15,
    ensures
        r == pow2n(e as nat),
        r >= 1,
{
    proof {
        crate::bits::lemma_pow2n_small();
    }
    match e {
        0 => 1,
        1 => 2,
        2 => 4,
        3 => 8,
        4 => 16,
        5 => 32,
        6 => 64,
        7 => 128,
        8 => 256,
        9 => 512,
        10 => 1024,
        11 => 2048,
        12 => 4096,
        13 => 8192,
        14 => 16384,
        _ => 32768,
    }
}

/// Pack the values of `vals`, each below 2 to the power `n`, as
/// consecutive `n`-bit fields, MSB-first, the last byte zero-padded.
/// Reading field `i` of the result with the bit field extractor yields
/// `vals[i]` again.
pub fn encode_fields(vals: &Vec<u16>, n: usize) -> (r: Vec<u8>)
    requires
        1 <= n <= 16,
        forall|i: int| 0 <= i < vals@.len() ==> vals@[i] < pow2n(n as nat),
        n * vals@.len() + 7 <= usize::MAX,
    ensures
        r@.len() == (n * vals@.len() + 7) / 8,
        forall|i: int| 0 <= i < vals@.len() ==> field_value(r@, n * i, n as nat) == vals@[i],
{
    let total: usize = n * vals.len();
    let mut bits: Vec<u8> = Vec::new();
    let mut i: usize = 0;
    while i < vals.len()
        invariant
            1 <= n <= 16,
            forall|t: int| 0 <= t < vals@.len() ==> vals@[t] < pow2n(n as nat),
            total == n * vals@.len(),
            total + 7 <= usize::MAX,
            i <= vals@.len(),
            bits@.len() == n * i,
            forall|k: int| 0 <= k < bits@.len() ==> bits@[k] < 2,
            forall|t: int, j: int|
                0 <= t < i && 0 <= j < n ==> #[trigger] bits@[n * t + j] == nth_bit_of(
                    vals@[t] as nat, j, n as nat),
        decreases vals@.len() - i,
    {
        let v: u16 = vals[i];
        let ghost bits_before = bits@;
        let ghost i0 = i as int;
        let mut j: usize = 0;
        proof {
            assert(n * i0 + n <= n * vals@.len()) by (nonlinear_arith)
                requires i0 < vals@.len(), n >= 1,
            ;
        }
        while j < n
            invariant
                1 <= n <= 16,
                j <= n,
                v < pow2n(n as nat),
                bits@.len() == bits_before.len() + j,
                n * i0 + n <= total,
                total + 7 <= usize::MAX,
                bits_before.len() == n * i0,
                forall|k: int| 0 <= k < bits_before.len() ==> bits@[k] == bits_before[k],
                forall|k: int| 0 <= k < bits@.len() ==> bits@[k] < 2,
                forall|q: int|
                    0 <= q < j ==> #[trigger] bits@[n * i0 + q] == nth_bit_of(
                        v as nat, q, n as nat),
            decreases n - j,
        {
            let b: u8 = ((v / pow_u16(n - 1 - j)) % 2) as u8;
            proof {
                assert(b == nth_bit_of(v as nat, j as int, n as nat));
            }
            bits.push(b);
            j = j + 1;
        }
        i = i + 1;
        proof {
            assert(n * i0 + n == n * (i0 + 1)) by (nonlinear_arith);
            assert forall|t: int, j2: int| 0 <= t < i && 0 <= j2 < n implies #[trigger] bits@[n * t
                + j2] == nth_bit_of(vals@[t] as nat, j2, n as nat) by {
                if t < i0 {
                    assert(0 <= n * t + j2 < n * i0) by (nonlinear_arith)
                        requires t < i0, 0 <= j2 < n, n >= 1, t >= 0,
                    ;
                    assert(bits_before[n * t + j2] == nth_bit_of(vals@[t] as nat, j2, n as nat));
                } else {
                    assert(t == i0);
                    assert(bits@[n * i0 + j2] == nth_bit_of(v as nat, j2, n as nat));
                }
            }
        }
    }
    assert(bits@.len() == total);
    let nbytes: usize = (total + 7) / 8;
    let target: usize = 8 * nbytes;
    proof {
        vstd::arithmetic::div_mod::lemma_fundamental_div_mod(total as int + 7, 8);
        assert(total <= target <= total + 7);
    }
    while bits.len() < target
        invariant
            total <= bits@.len() <= target,
            target <= total + 7,
            forall|k: int| 0 <= k < bits@.len() ==> bits@[k] < 2,
            forall|t: int, j: int|
                0 <= t < vals@.len() && 0 <= j < n ==> #[trigger] bits@[n * t + j] == nth_bit_of(
                    vals@[t] as nat, j, n as nat),
            1 <= n <= 16,
            total == n * vals@.len(),
        decreases target - bits@.len(),
    {
        let ghost bits_prev = bits@;
        bits.push(0);
        proof {
            assert forall|t: int, j: int| 0 <= t < vals@.len() && 0 <= j < n implies #[trigger]
                bits@[n * t + j] == nth_bit_of(vals@[t] as nat, j, n as nat) by {
                assert(0 <= n * t + j < total) by (nonlinear_arith)
                    requires 0 <= t < vals@.len(), 0 <= j < n, n >= 1, total == n * vals@.len(),
                ;
                assert(bits_prev[n * t + j] == nth_bit_of(vals@[t] as nat, j, n as nat));
            }
        }
    }
    let padded: usize = target;
    let mut out: Vec<u8> = Vec::new();
    let mut b: usize = 0;
    while b < nbytes
        invariant
            padded == bits@.len(),
            padded == 8 * nbytes,
            b <= nbytes,
            out@.len() == b,
            forall|k: int| 0 <= k < 8 * b ==> #[trigger] stream_bit(out@, k) == bits@[k],
            forall|k: int| 0 <= k < padded ==> bits@[k] < 2,
        decreases nbytes - b,
    {
        let base: usize = 8 * b;
        proof {
            assert(8 * (b as int) + 8 <= 8 * (nbytes as int)) by (nonlinear_arith)
                requires b < nbytes,
            ;
        }
        let c0: u8 = bits[base];
        let c1: u8 = bits[base + 1];
        let c2: u8 = bits[base + 2];
        let c3: u8 = bits[base + 3];
        let c4: u8 = bits[base + 4];
        let c5: u8 = bits[base + 5];
        let c6: u8 = bits[base + 6];
        let c7: u8 = bits[base + 7];
        proof {
            lemma_byte_from_bits(c0, c1, c2, c3, c4, c5, c6, c7);
        }
        let byte: u8 = c0 * 128 + c1 * 64 + c2 * 32 + c3 * 16 + c4 * 8 + c5 * 4 + c6 * 2 + c7;
        let ghost out_before = out@;
        out.push(byte);
        proof {
            assert forall|k: int| 0 <= k < 8 * b + 8 implies #[trigger] stream_bit(out@, k)
                == bits@[k] by {
                vstd::arithmetic::div_mod::lemma_fundamental_div_mod(k, 8);
                if k < 8 * b {
                    assert(0 <= k / 8 < b) by (nonlinear_arith)
                        requires 0 <= k < 8 * b, k == 8 * (k / 8) + k % 8, 0 <= k % 8 < 8,
                    ;
                    assert(out@[k / 8] == out_before[k / 8]);
                    assert(stream_bit(out_before, k) == bits@[k]);
                } else {
                    assert(k / 8 == b) by (nonlinear_arith)
                        requires 8 * b <= k < 8 * b + 8, k == 8 * (k / 8) + k % 8, 0 <= k % 8 < 8,
                    ;
                    assert(out@[b as int] == byte);
                    let t = k % 8;
                    if t == 0 {
                        assert(byte_bit(byte, 0) == c0);
                    } else if t == 1 {
                        assert(byte_bit(byte, 1) == c1);
                    } else if t == 2 {
                        assert(byte_bit(byte, 2) == c2);
                    } else if t == 3 {
                        assert(byte_bit(byte, 3) == c3);
                    } else if t == 4 {
                        assert(byte_bit(byte, 4) == c4);
                    } else if t == 5 {
                        assert(byte_bit(byte, 5) == c5);
                    } else if t == 6 {
                        assert(byte_bit(byte, 6) == c6);
                    } else {
                        assert(byte_bit(byte, 7) == c7);
                    }
                    assert(byte_bit(byte, t) == bits@[8 * b + t]);
                }
            }
        }
        b = b + 1;
    }
    proof {
        assert forall|i2: int| 0 <= i2 < vals@.len() implies field_value(out@, n * i2, n as nat)
            == vals@[i2] by {
            assert(n * i2 + n <= total) by (nonlinear_arith)
                requires 0 <= i2 < vals@.len(), total == n * vals@.len(), n >= 1,
            ;
            assert(n * i2 >= 0) by (nonlinear_arith)
                requires i2 >= 0, n >= 1,
            ;
            assert forall|j: int| 0 <= j < n implies stream_bit(out@, n * i2 + j) == nth_bit_of(
                vals@[i2] as nat, j, n as nat) by {
                assert(stream_bit(out@, n * i2 + j) == bits@[n * i2 + j]);
                assert(bits@[n * i2 + j] == nth_bit_of(vals@[i2] as nat, j, n as nat));
            }
            lemma_field_from_bits(out@, n * i2, n as nat, vals@[i2] as nat);
        }
    }
    out
}

/// The `n`-bit two's-complement code of the signed value `v`.
pub open spec fn code_of_signed(v: int, n: nat) -> nat
    recommends
        1 <= n,
        -pow2n((n - 1) as nat) <= v < pow2n((n - 1) as nat),
{
    if v < 0 {
        (v + pow2n(n)) as nat
    } else {
        v as nat
    }
}

/// Round trip of the two's-complement reinterpretation: the code of a
/// representable signed value decodes back to exactly that value, the
/// boundary values included.
pub proof fn lemma_signed_round_trip(v: int, n: nat)
    requires
        1 <= n,
        -pow2n((n - 1) as nat) <= v < pow2n((n - 1) as nat),
    ensures
        code_of_signed(v, n) < pow2n(n),
        signed_value(code_of_signed(v, n), n) == v,
{
    assert(pow2n(n) == 2 * pow2n((n - 1) as nat));
}

/// 2 to the power `n` as an `i32`, for `n <= 16`.
fn pow_i32(n: usize) -> (r: i32)
    requires
        n <= 16,
    ensures
        r == pow2n(n as nat),
{
    proof {
        crate::bits::lemma_pow2n_small();
    }
    match n {
        0 => 1,
        1 => 2,
        2 => 4,
        3 => 8,
        4 => 16,
        5 => 32,
        6 => 64,
        7 => 128,
        8 => 256,
        9 => 512,
        10 => 1024,
        11 => 2048,
        12 => 4096,
        13 => 8192,
        14 => 16384,
        15 => 32768,
        _ => 65536,
    }
}

/// Pack signed values as consecutive `n`-bit two's-complement fields,
/// MSB-first, the last byte zero-padded. Reading field `i` of the result
/// as a signed field with the bit field extractor yields `vals[i]`
/// again, exactly, negative values included.
pub fn encode_signed_fields(vals: &Vec<i16>, n: usize) -> (r: Vec<u8>)
    requires
        1 <= n <= 16,
        forall|i: int|
            0 <= i < vals@.len() ==> -pow2n((n - 1) as nat) <= #[trigger] vals@[i] < pow2n(
                (n - 1) as nat),
        n * vals@.len() + 7 <= usize::MAX,
    ensures
        r@.len() == (n * vals@.len() + 7) / 8,
        forall|i: int|
            0 <= i < vals@.len() ==> signed_value(
                field_value(r@, n * i, n as nat),
                n as nat,
            ) == vals@[i],
{
    let mut codes: Vec<u16> = Vec::new();
    let mut i: usize = 0;
    let p: i32 = pow_i32(n);
    while i < vals.len()
        invariant
            1 <= n <= 16,
            p == pow2n(n as nat),
            forall|t: int|
                0 <= t < vals@.len() ==> -pow2n((n - 1) as nat) <= #[trigger] vals@[t] < pow2n(
                    (n - 1) as nat),
            i <= vals@.len(),
            codes@.len() == i,
            forall|t: int|
                0 <= t < i ==> #[trigger] codes@[t] == code_of_signed(vals@[t] as int, n as nat)
                    && codes@[t] < pow2n(n as nat),
        decreases vals@.len() - i,
    {
        let v: i16 = vals[i];
        proof {
            lemma_signed_round_trip(v as int, n as nat);
            crate::bits::lemma_pow2n_small();
        }
        let code: u16 = if v < 0 {
            (v as i32 + p) as u16
        } else {
            v as u16
        };
        codes.push(code);
        i = i + 1;
    }
    let r = encode_fields(&codes, n);
    proof {
        assert forall|i2: int| 0 <= i2 < vals@.len() implies signed_value(
            field_value(r@, n * i2, n as nat),
            n as nat,
        ) == vals@[i2] by {
            assert(codes@[i2] == code_of_signed(vals@[i2] as int, n as nat));
            assert(field_value(r@, n * i2, n as nat) == codes@[i2]);
            lemma_signed_round_trip(vals@[i2] as int, n as nat);
        }
    }
    r
}

} // verus!
