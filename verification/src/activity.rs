//! Decoding of Activity records: bit-packed tri-axis acceleration samples.
//!
//! An Activity payload (trailing checksum byte stripped) is a run of 12-bit
//! two's-complement fields read MSB-first until fewer than a full triplet's
//! worth of bits remains. On the wire the axes come in the order Y, X, Z;
//! the decoded columns are emitted in X, Y, Z order, three values per
//! sample. Raw codes are kept exactly as decoded; the conventional scale of
//! 1/256 g per code is the caller's to apply.

use vstd::prelude::*;
use crate::bits::{BitCursor, field_value, signed_value};
use crate::timestamp::{DecodeError, sample_time_i64};

verus! {

/// How many whole (y, x, z) triplets the bit stream of `body` holds:
/// the whole 12-bit fields, grouped by three, partial groups dropped.
pub open spec fn activity_triplet_count(body: Seq<u8>) -> int {
    (8 * body.len() as int / 12) / 3
}

/// The X axis code of triplet `t`: the second 12-bit field of the group.
pub open spec fn activity_axis_x(body: Seq<u8>, t: int) -> i16 {
    signed_value(field_value(body, 36 * t + 12, 12), 12) as i16
}

/// The Y axis code of triplet `t`: the first 12-bit field of the group.
pub open spec fn activity_axis_y(body: Seq<u8>, t: int) -> i16 {
    signed_value(field_value(body, 36 * t, 12), 12) as i16
}

/// The Z axis code of triplet `t`: the third 12-bit field of the group.
pub open spec fn activity_axis_z(body: Seq<u8>, t: int) -> i16 {
    signed_value(field_value(body, 36 * t + 24, 12), 12) as i16
}

/// The timestamp axis of an Activity record: one entry per triplet,
/// spaced by the sample period from the record's base second.
pub open spec fn activity_time_seq(base_seconds: u32, rate: u32, nt: int) -> Seq<i64>
    recommends
        rate >= 1,
        nt >= 0,
{
    Seq::new(nt as nat, |t: int| sample_time_i64(base_seconds, rate, t))
}

/// The acceleration column of an Activity record: triplets flattened in
/// X, Y, Z output order, three values per sample.
pub open spec fn activity_accel_seq(body: Seq<u8>, nt: int) -> Seq<i16>
    recommends
        nt >= 0,
{
    Seq::new(
        (3 * nt) as nat,
        |k: int|
            if k % 3 == 0 {
                activity_axis_x(body, k / 3)
            } else if k % 3 == 1 {
                activity_axis_y(body, k / 3)
            } else {
                activity_axis_z(body, k / 3)
            },
    )
}

/// Within one record, decoded sample timestamps strictly increase: for any
/// rate between 1 Hz and 1 GHz, a later triplet has a strictly later
/// timestamp; and the axis resets (non-monotonically, by design) at each
/// record, whose sample zero sits at the record's own base second.
pub proof fn lemma_activity_times_strict(base_seconds: u32, rate: u32, nt: int, i: int, j: int)
    requires
        1 <= rate <= 1_000_000_000,
        0 <= i < j < nt,
        j <= u32::MAX,
    ensures
        activity_time_seq(base_seconds, rate, nt)[i] < activity_time_seq(base_seconds, rate, nt)[j],
        activity_time_seq(base_seconds, rate, nt)[0] == base_seconds as int * 1_000_000_000,
{
    crate::timestamp::lemma_sample_time_fits(base_seconds, rate, i as u32);
    crate::timestamp::lemma_sample_time_fits(base_seconds, rate, j as u32);
    crate::timestamp::lemma_sample_time_fits(base_seconds, rate, 0);
    crate::timestamp::lemma_timestamps_strictly_increase(base_seconds, rate, i, j);
}

/// The decoded samples of one Activity record.
pub struct ActivitySamples {
    /// One nanosecond timestamp per sample.
    pub time: Vec<i64>,
    /// Three acceleration codes per sample, in X, Y, Z order.
    pub accel: Vec<i16>,
}

/// Decode one Activity record body (payload with the trailing checksum
/// byte already stripped) at `rate` Hz, the record's base time being
/// `base_seconds` Unix seconds. A zero rate is rejected; otherwise every
/// whole triplet is decoded and partial trailing fields are dropped. A
/// body is never longer than the wire format's 16-bit record size allows.
pub fn decode_activity(body: &[u8], base_seconds: u32, rate: u32) -> (r: Result<
    ActivitySamples,
    DecodeError,
>)
    requires
        body@.len() <= 0x1_0000,
    ensures
        rate == 0 ==> r == Result::<ActivitySamples, DecodeError>::Err(DecodeError::Config),
        rate >= 1 ==> {
            &&& r matches Ok(s)
            &&& s.time@ == activity_time_seq(base_seconds, rate, activity_triplet_count(body@))
            &&& s.accel@ == activity_accel_seq(body@, activity_triplet_count(body@))
        },
{
    if rate == 0 {
        return Err(DecodeError::Config);
    }
    let nbits: usize = 8 * body.len();
    let nfields: usize = nbits / 12;
    let ntrip: usize = nfields / 3;
    proof {
        vstd::arithmetic::div_mod::lemma_fundamental_div_mod(nbits as int, 12);
        vstd::arithmetic::div_mod::lemma_fundamental_div_mod(nfields as int, 3);
        assert(36 * ntrip <= nbits);
        assert(ntrip == activity_triplet_count(body@));
    }
    let mut cursor = BitCursor::new(body);
    let mut time: Vec<i64> = Vec::new();
    let mut accel: Vec<i16> = Vec::new();
    let mut t: usize = 0;
    while t < ntrip
        invariant
            rate >= 1,
            36 * ntrip <= nbits,
            nbits == 8 * body@.len(),
            body@.len() <= 0x1_0000,
            cursor.wf(),
            cursor.bytes_spec() == body@,
            cursor.pos_spec() == 36 * t,
            t <= ntrip,
            time@.len() == t,
            forall|i: int| 0 <= i < t ==> time@[i] == sample_time_i64(base_seconds, rate, i),
            accel@.len() == 3 * t,
            forall|i: int| 0 <= i < t ==> {
                &&& #[trigger] accel@[3 * i] == activity_axis_x(body@, i)
                &&& accel@[3 * i + 1] == activity_axis_y(body@, i)
                &&& accel@[3 * i + 2] == activity_axis_z(body@, i)
            },
        decreases ntrip - t,
    {
        let y: i16 = match cursor.read_signed(12) {
            Some(v) => v,
            None => { return Err(DecodeError::Framing); },
        };
        let x: i16 = match cursor.read_signed(12) {
            Some(v) => v,
            None => { return Err(DecodeError::Framing); },
        };
        let z: i16 = match cursor.read_signed(12) {
            Some(v) => v,
            None => { return Err(DecodeError::Framing); },
        };
        let ts: i64 = match crate::timestamp::datetime_add_hz(base_seconds, rate, t as u32) {
            Ok(v) => v,
            Err(e) => { return Err(e); },
        };
        time.push(ts);
        accel.push(x);
        accel.push(y);
        accel.push(z);
        proof {
            assert((3 * (t as int)) % 3 == 0 && (3 * (t as int)) / 3 == t as int
                && (3 * (t as int) + 1) % 3 == 1 && (3 * (t as int) + 1) / 3 == t as int
                && (3 * (t as int) + 2) % 3 == 2 && (3 * (t as int) + 2) / 3 == t as int)
                by (nonlinear_arith)
                requires t >= 0,
            ;
        }
        t = t + 1;
    }
    proof {
        let nt = ntrip as int;
        assert(time@ =~= activity_time_seq(base_seconds, rate, nt));
        assert forall|k: int| 0 <= k < 3 * nt implies #[trigger] accel@[k] == activity_accel_seq(
            body@, nt)[k] by {
            vstd::arithmetic::div_mod::lemma_fundamental_div_mod(k, 3);
            let i = k / 3;
            assert(0 <= i < nt) by (nonlinear_arith)
                requires 0 <= k < 3 * nt, k == 3 * (k / 3) + k % 3, 0 <= k % 3 < 3, i == k / 3,
            ;
            assert(accel@[3 * i] == activity_axis_x(body@, i));
            if k % 3 == 0 {
                assert(k == 3 * i);
            } else if k % 3 == 1 {
                assert(k == 3 * i + 1);
            } else {
                assert(k == 3 * i + 2);
            }
        }
        assert(accel@ =~= activity_accel_seq(body@, nt));
    }
    Ok(ActivitySamples { time, accel })
}

} // verus!
