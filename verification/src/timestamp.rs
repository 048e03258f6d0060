//! Per-sample timestamp reconstruction.
//!
//! Every sample's time is derived from its record's (or page's)
//! second-resolution base time, its index within the record, and the sample
//! rate that arrives embedded in the stream. The arithmetic is integer-only,
//! so per-sample spacing is exactly reproducible: the spacing is
//! `floor(1e9 / rate)` nanoseconds, uniform within a record, and resets to
//! the next record's own base time with no carry-over of fractional drift.

use vstd::prelude::*;

verus! {

/// The decode error taxonomy of the record stream.
#[derive(Clone, Copy, Debug, PartialEq, Eq, Structural)]
pub enum DecodeError {
    /// The stream ended inside a record, or a record's payload does not
    /// frame what its type requires: fatal corruption.
    Framing,
    /// A timestamp had to be computed while the sample rate was zero.
    Config,
}

/// The nanosecond spacing of samples at `rate` Hz.
pub open spec fn sample_period_ns(rate: u32) -> int
    recommends
        rate >= 1,
{
    1_000_000_000int / rate as int
}

/// The nanosecond timestamp of sample `idx` of a record whose base time is
/// `base_seconds` Unix seconds, at `rate` Hz.
pub open spec fn sample_time_ns(base_seconds: u32, rate: u32, idx: int) -> int
    recommends
        rate >= 1,
{
    base_seconds as int * 1_000_000_000 + sample_period_ns(rate) * idx
}

/// `sample_time_ns` truncated into an `i64`; `lemma_sample_time_fits`
/// shows the truncation never bites while the index fits a `u32`.
pub open spec fn sample_time_i64(base_seconds: u32, rate: u32, idx: int) -> i64
    recommends
        rate >= 1,
{
    sample_time_ns(base_seconds, rate, idx) as i64
}

/// The sample period and every sample timestamp of a record fit an `i64`,
/// for all `u32` inputs.
pub proof fn lemma_sample_time_fits(base_seconds: u32, rate: u32, idx: u32)
    requires
        rate >= 1,
    ensures
        0 <= sample_period_ns(rate) <= 1_000_000_000,
        0 <= sample_time_ns(base_seconds, rate, idx as int) < 0x7fff_ffff_ffff_ffff,
        sample_time_i64(base_seconds, rate, idx as int) == sample_time_ns(
            base_seconds, rate, idx as int),
{
    assert(sample_period_ns(rate) <= 1_000_000_000);
    assert(sample_period_ns(rate) * idx <= 1_000_000_000 * idx) by (nonlinear_arith)
        requires 0 <= sample_period_ns(rate) <= 1_000_000_000, idx >= 0,
    ;
    assert(1_000_000_000int * idx <= 1_000_000_000int * 0xffff_ffffint) by (nonlinear_arith)
        requires idx <= 0xffff_ffffu32,
    ;
    assert(sample_period_ns(rate) * idx >= 0) by (nonlinear_arith)
        requires sample_period_ns(rate) >= 0, idx >= 0,
    ;
}

/// Within one record, sample timestamps strictly increase: whenever the
/// rate is between 1 Hz and 1 GHz (so the integer period is at least one
/// nanosecond), a later sample index gives a strictly later timestamp.
pub proof fn lemma_timestamps_strictly_increase(base_seconds: u32, rate: u32, i: int, j: int)
    requires
        1 <= rate <= 1_000_000_000,
        0 <= i < j,
    ensures
        sample_time_ns(base_seconds, rate, i) < sample_time_ns(base_seconds, rate, j),
{
    assert(sample_period_ns(rate) >= 1) by (nonlinear_arith)
        requires 1 <= rate <= 1_000_000_000,
    ;
    assert(sample_period_ns(rate) * i < sample_period_ns(rate) * j) by (nonlinear_arith)
        requires sample_period_ns(rate) >= 1, i < j,
    ;
}

/// Each record's timestamp axis restarts at the record's own base time:
/// sample zero is at exactly that whole second, whatever rate is current
/// and whatever any earlier record carried.
pub proof fn lemma_timestamps_reset_to_base(base_seconds: u32, rate: u32)
    requires
        rate >= 1,
    ensures
        sample_time_ns(base_seconds, rate, 0) == base_seconds as int * 1_000_000_000,
{
}

/// The period in nanoseconds between consecutive samples at `rate` Hz;
/// rejects a zero rate.
pub fn period_ns(rate: u32) -> (r: Result<i64, DecodeError>)
    ensures
        rate == 0 ==> r == Result::<i64, DecodeError>::Err(DecodeError::Config),
        rate >= 1 ==> r == Result::<i64, DecodeError>::Ok(sample_period_ns(rate) as i64),
{
    if rate == 0 {
        Err(DecodeError::Config)
    } else {
        Ok(1_000_000_000i64 / rate as i64)
    }
}

/// The nanosecond timestamp of sample `sample_counter` at `hz` Hz after the
/// base time `base_seconds`; rejects a zero rate.
pub fn datetime_add_hz(base_seconds: u32, hz: u32, sample_counter: u32) -> (r: Result<
    i64,
    DecodeError,
>)
    ensures
        hz == 0 ==> r == Result::<i64, DecodeError>::Err(DecodeError::Config),
        hz >= 1 ==> r == Result::<i64, DecodeError>::Ok(
            sample_time_i64(base_seconds, hz, sample_counter as int)),
        hz >= 1 ==> (r matches Ok(t) && t == sample_time_ns(
            base_seconds, hz, sample_counter as int)),
{
    if hz == 0 {
        return Err(DecodeError::Config);
    }
    proof {
        lemma_sample_time_fits(base_seconds, hz, sample_counter);
    }
    let period: i64 = 1_000_000_000i64 / hz as i64;
    Ok(base_seconds as i64 * 1_000_000_000i64 + period * sample_counter as i64)
}

} // verus!
