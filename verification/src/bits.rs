//! Bit field extraction from byte buffers.
//!
//! A `BitCursor` walks a byte buffer bit by bit, most-significant-bit first
//! within each byte, and yields fixed-width unsigned or two's-complement
//! signed integer fields and single boolean bits at arbitrary bit offsets.
//! Running out of bits is reported as `None`, an ordinary end-of-data signal;
//! whether that means normal termination or a malformed buffer is the
//! caller's contract.

use vstd::prelude::*;

verus! {

/// 2 to the power `n`.
pub open spec fn pow2n(n: nat) -> nat
    decreases n,
{
    if n == 0 {
        1
    } else {
        2 * pow2n((n - 1) as nat)
    }
}

/// Bit `k` of byte `b`, counting from the most significant bit; 0 or 1.
pub open spec fn byte_bit(b: u8, k: int) -> nat
    recommends
        0 <= k < 8,
{
    (b as nat) / pow2n((7 - k) as nat) % 2
}

/// Bit `i` of the bit stream formed by the bytes in order, MSB-first
/// within each byte; 0 or 1.
pub open spec fn stream_bit(bytes: Seq<u8>, i: int) -> nat
    recommends
        0 <= i < 8 * bytes.len(),
{
    byte_bit(bytes[i / 8], i % 8)
}

/// The unsigned value of the `n` bits starting at bit offset `start`,
/// most significant bit first.
pub open spec fn field_value(bytes: Seq<u8>, start: int, n: nat) -> nat
    recommends
        0 <= start,
        start + n <= 8 * bytes.len(),
    decreases n,
{
    if n == 0 {
        0
    } else {
        2 * field_value(bytes, start, (n - 1) as nat) + stream_bit(bytes, start + n - 1)
    }
}

/// Reinterpretation of an `n`-bit unsigned value `u` as an `n`-bit
/// two's-complement signed value.
pub open spec fn signed_value(u: nat, n: nat) -> int
    recommends
        1 <= n,
        u < pow2n(n),
{
    if u >= pow2n((n - 1) as nat) {
        u - pow2n(n)
    } else {
        u as int
    }
}

/// The values of `pow2n` up to 16.
pub proof fn lemma_pow2n_small()
    ensures
        pow2n(0) == 1,
        pow2n(1) == 2,
        pow2n(2) == 4,
        pow2n(3) == 8,
        pow2n(4) == 16,
        pow2n(5) == 32,
        pow2n(6) == 64,
        pow2n(7) == 128,
        pow2n(8) == 256,
        pow2n(9) == 512,
        pow2n(10) == 1024,
        pow2n(11) == 2048,
        pow2n(12) == 4096,
        pow2n(13) == 8192,
        pow2n(14) == 16384,
        pow2n(15) == 32768,
        pow2n(16) == 65536,
{
    reveal_with_fuel(pow2n, 17);
}

/// `pow2n` is positive.
pub proof fn lemma_pow2n_pos(e: nat)
    ensures
        pow2n(e) >= 1,
    decreases e,
{
    if e > 0 {
        lemma_pow2n_pos((e - 1) as nat);
    }
}

/// `pow2n` grows monotonically.
pub proof fn lemma_pow2n_monotone(a: nat, b: nat)
    requires
        a <= b,
    ensures
        pow2n(a) <= pow2n(b),
    decreases b,
{
    if a < b {
        lemma_pow2n_monotone(a, (b - 1) as nat);
    }
}

/// Any field value fits below 2 to the power of its width.
pub proof fn lemma_field_value_bound(bytes: Seq<u8>, start: int, n: nat)
    ensures
        field_value(bytes, start, n) < pow2n(n),
    decreases n,
{
    if n > 0 {
        lemma_field_value_bound(bytes, start, (n - 1) as nat);
    }
}

/// A cursor over a byte buffer that yields bit fields in stream order.
pub struct BitCursor<'a> {
    bytes: &'a [u8],
    pos: usize,
}

impl<'a> BitCursor<'a> {
    /// The bytes the cursor reads from.
    pub closed spec fn bytes_spec(&self) -> Seq<u8> {
        self.bytes@
    }

    /// The current bit offset.
    pub closed spec fn pos_spec(&self) -> int {
        self.pos as int
    }

    /// The cursor is within its buffer and the buffer's bit count fits a usize.
    pub open spec fn wf(&self) -> bool {
        self.pos_spec() <= 8 * self.bytes_spec().len()
        && 8 * self.bytes_spec().len() <= usize::MAX
    }

    /// The number of bits not yet consumed.
    pub open spec fn remaining_spec(&self) -> int {
        8 * self.bytes_spec().len() - self.pos_spec()
    }

    pub fn new(bytes: &'a [u8]) -> (r: BitCursor<'a>)
        requires
            8 * bytes@.len() <= usize::MAX,
        ensures
            r.wf(),
            r.bytes_spec() == bytes@,
            r.pos_spec() == 0,
    {
        BitCursor { bytes, pos: 0 }
    }

    /// How many bits remain to be read.
    pub fn remaining(&self) -> (r: usize)
        requires
            self.wf(),
        ensures
            r == self.remaining_spec(),
    {
        8 * self.bytes.len() - self.pos
    }

    /// Read the single bit at the cursor; 1 is `true`.
    fn read_bit(&mut self) -> (r: u8)
        requires
            old(self).wf(),
            old(self).remaining_spec() >= 1,
        ensures
            final(self).wf(),
            final(self).bytes_spec() == old(self).bytes_spec(),
            final(self).pos_spec() == old(self).pos_spec() + 1,
            r == stream_bit(old(self).bytes_spec(), old(self).pos_spec()),
            r <= 1,
    {
        let byte_index: usize = self.pos / 8;
        let k: usize = self.pos % 8;
        let b: u8 = *vstd::slice::slice_index_get(self.bytes, byte_index);
        let divisor: u8 = match 7 - k {
            0 => 1,
            1 => 2,
            2 => 4,
            3 => 8,
            4 => 16,
            5 => 32,
            6 => 64,
            _ => 128,
        };
        proof {
            lemma_pow2n_small();
        }
        let bit: u8 = b / divisor % 2;
        self.pos = self.pos + 1;
        bit
    }

    /// Read the next `n` bits as an unsigned value, MSB first.
    /// Returns `None`, without moving the cursor, when fewer than `n`
    /// bits remain.
    pub fn read_unsigned(&mut self, n: usize) -> (r: Option<u16>)
        requires
            old(self).wf(),
            n <= 16,
        ensures
            final(self).wf(),
            final(self).bytes_spec() == old(self).bytes_spec(),
            old(self).remaining_spec() >= n ==> {
                &&& r == Some(
                    field_value(old(self).bytes_spec(), old(self).pos_spec(), n as nat) as u16)
                &&& final(self).pos_spec() == old(self).pos_spec() + n
            },
            old(self).remaining_spec() < n ==> {
                &&& r is None
                &&& final(self).pos_spec() == old(self).pos_spec()
            },
    {
        if self.remaining() < n {
            return None;
        }
        let ghost bytes = self.bytes_spec();
        let ghost start = self.pos_spec();
        let mut acc: u16 = 0;
        let mut j: usize = 0;
        while j < n
            invariant
                self.wf(),
                self.bytes_spec() == bytes,
                j <= n,
                n <= 16,
                self.pos_spec() == start + j,
                start + n <= 8 * bytes.len(),
                acc == field_value(bytes, start, j as nat),
                acc < pow2n(j as nat),
            decreases n - j,
        {
            proof {
                lemma_pow2n_small();
                lemma_pow2n_monotone(j as nat, 15);
            }
            let bit: u8 = self.read_bit();
            acc = 2 * acc + bit as u16;
            j = j + 1;
        }
        Some(acc)
    }

    /// Read the next `n` bits as a two's-complement signed value, MSB first.
    /// Returns `None`, without moving the cursor, when fewer than `n`
    /// bits remain.
    pub fn read_signed(&mut self, n: usize) -> (r: Option<i16>)
        requires
            old(self).wf(),
            1 <= n <= 16,
        ensures
            final(self).wf(),
            final(self).bytes_spec() == old(self).bytes_spec(),
            old(self).remaining_spec() >= n ==> {
                &&& r == Some(
                    signed_value(
                        field_value(old(self).bytes_spec(), old(self).pos_spec(), n as nat),
                        n as nat,
                    ) as i16)
                &&& final(self).pos_spec() == old(self).pos_spec() + n
            },
            old(self).remaining_spec() < n ==> {
                &&& r is None
                &&& final(self).pos_spec() == old(self).pos_spec()
            },
    {
        let ghost bytes = self.bytes_spec();
        let ghost start = self.pos_spec();
        match self.read_unsigned(n) {
            None => None,
            Some(u) => {
                proof {
                    lemma_pow2n_small();
                    lemma_field_value_bound(bytes, start, n as nat);
                    lemma_pow2n_monotone(n as nat, 16);
                    lemma_pow2n_monotone((n - 1) as nat, 15);
                }
                let half: u16 = half_pow(n);
                if u >= half {
                    let full_minus_u: u16 = (half - (u - half)) - 1;
                    Some(-(full_minus_u as i16) - 1)
                } else {
                    Some(u as i16)
                }
            },
        }
    }

    /// Read one bit as a boolean; 1 is `true`. Returns `None`, without
    /// moving the cursor, when no bit remains.
    pub fn read_bool(&mut self) -> (r: Option<bool>)
        requires
            old(self).wf(),
        ensures
            final(self).wf(),
            final(self).bytes_spec() == old(self).bytes_spec(),
            old(self).remaining_spec() >= 1 ==> {
                &&& r == Some(stream_bit(old(self).bytes_spec(), old(self).pos_spec()) == 1)
                &&& final(self).pos_spec() == old(self).pos_spec() + 1
            },
            old(self).remaining_spec() < 1 ==> {
                &&& r is None
                &&& final(self).pos_spec() == old(self).pos_spec()
            },
    {
        if self.remaining() < 1 {
            return None;
        }
        let bit: u8 = self.read_bit();
        Some(bit == 1)
    }

    /// Advance the cursor by `n` bits without reading. Returns `None`,
    /// without moving the cursor, when fewer than `n` bits remain.
    pub fn skip(&mut self, n: usize) -> (r: Option<()>)
        requires
            old(self).wf(),
        ensures
            final(self).wf(),
            final(self).bytes_spec() == old(self).bytes_spec(),
            old(self).remaining_spec() >= n ==> {
                &&& r == Some(())
                &&& final(self).pos_spec() == old(self).pos_spec() + n
            },
            old(self).remaining_spec() < n ==> {
                &&& r is None
                &&& final(self).pos_spec() == old(self).pos_spec()
            },
    {
        if self.remaining() < n {
            return None;
        }
        self.pos = self.pos + n;
        Some(())
    }
}

/// 2 to the power `n - 1` as an executable value, for `1 <= n <= 16`.
fn half_pow(n: usize) -> (r: u16)
    requires
        1 <= n <= 16,
    ensures
        r == pow2n((n - 1) as nat),
{
    proof {
        lemma_pow2n_small();
        reveal_with_fuel(pow2n, 17);
    }
    match n - 1 {
        0 => 1,
        1 => 2,
        2 => 4,
        3 => 8,
        4 => 16,
        5 => 32,
        6 => 64,
        7 => 128,
        8 => 256,
        9 => 512,
        10 => 1024,
        11 => 2048,
        12 => 4096,
        13 => 8192,
        14 => 16384,
        _ => 32768,
    }
}

} // verus!
