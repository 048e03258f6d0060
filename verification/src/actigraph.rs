//! The record-stream decoder of the zip-packaged binary event log.
//!
//! The log is a run of header-prefixed records. Decoding walks them in
//! stream order, threading one piece of mutable configuration through the
//! pass: the sample rate, 30 Hz by default, overwritten whenever a
//! Parameters record declares it, and consumed by every Activity record
//! decoded afterwards. Unknown record types and invalid header separators
//! are non-fatal: they are reported as events and the record is otherwise
//! skipped or, for a bad separator, decoded as declared. Truncation and
//! malformed payloads of known record types are fatal.

use vstd::prelude::*;
use crate::activity::{
    ActivitySamples, activity_accel_seq, activity_time_seq, activity_triplet_count,
    decode_activity,
};
use crate::params::{
    MetadataEntry, interpret_parameters, meta_of_entries, param_entry_count, params_well_framed,
    rate_of_entries,
};
use crate::records::{
    LogRecordHeader, LogRecordIterator, LogRecordType, RecordStep, header_at, le_u16,
    record_end, record_fits, record_payload, record_type_of, separator_byte,
};
use crate::timestamp::DecodeError;

verus! {

/// The sample rate assumed until a Parameters record declares one, in Hz.
pub const DEFAULT_SAMPLE_RATE: u32 = 30;

/// A non-fatal condition met while decoding; reported and skipped over.
#[derive(Clone, Copy, Debug, PartialEq, Eq, Structural)]
pub enum DecodeEvent {
    /// A record header whose separator byte is not the well-formed value.
    /// The record was still decoded as its declared length and type say.
    InvalidSeparator { separator: u8 },
    /// A record type byte outside the code table. The payload was skipped.
    UnknownRecordType { code: u8 },
}

/// What one whole decode pass produces.
pub struct LogData {
    /// One nanosecond timestamp per acceleration sample, in stream order.
    pub time: Vec<i64>,
    /// Three acceleration codes per sample, X, Y, Z within each sample.
    pub acceleration: Vec<i16>,
    /// Raw lux values, one per Lux record, in stream order.
    pub lux: Vec<u16>,
    /// Resolved parameter entries, in stream order.
    pub metadata: Vec<MetadataEntry>,
    /// The non-fatal conditions met, in stream order.
    pub events: Vec<DecodeEvent>,
    /// The sample rate after the last Parameters record, in Hz.
    pub sample_rate: u32,
}

/// The mathematical image of a decode pass.
pub struct LogModel {
    pub time: Seq<i64>,
    pub accel: Seq<i16>,
    pub lux: Seq<u16>,
    pub meta: Seq<MetadataEntry>,
    pub events: Seq<DecodeEvent>,
    pub rate: u32,
}

/// The events the record headed by `h` reports.
pub open spec fn record_events(h: LogRecordHeader) -> Seq<DecodeEvent> {
    (if h.separator != separator_byte() {
        seq![DecodeEvent::InvalidSeparator { separator: h.separator }]
    } else {
        Seq::empty()
    }) + (if record_type_of(h.record_type) is Unknown {
        seq![DecodeEvent::UnknownRecordType { code: h.record_type }]
    } else {
        Seq::empty()
    })
}

/// What decoding the stream from byte offset `pos` onward yields, the
/// sample rate being `rate` when that record begins. This is the
/// reference meaning of the whole format: `decode_log` is proved equal
/// to it from offset zero at the default rate.
pub open spec fn decode_from(bytes: Seq<u8>, pos: int, rate: u32) -> Result<LogModel, DecodeError>
    decreases bytes.len() - pos,
{
    if pos < 0 || pos > bytes.len() {
        Err(DecodeError::Framing)
    } else if pos == bytes.len() {
        Ok(
            LogModel {
                time: Seq::empty(),
                accel: Seq::empty(),
                lux: Seq::empty(),
                meta: Seq::empty(),
                events: Seq::empty(),
                rate,
            },
        )
    } else if !record_fits(bytes, pos) {
        Err(DecodeError::Framing)
    } else {
        let h = header_at(bytes, pos);
        let payload = record_payload(bytes, pos);
        let next = record_end(bytes, pos);
        let ev = record_events(h);
        match record_type_of(h.record_type) {
            LogRecordType::Activity => {
                if rate == 0 {
                    Err(DecodeError::Config)
                } else {
                    let body = payload.take(payload.len() - 1);
                    let nt = activity_triplet_count(body);
                    match decode_from(bytes, next, rate) {
                        Err(e) => Err(e),
                        Ok(m) => Ok(
                            LogModel {
                                time: activity_time_seq(h.timestamp, rate, nt) + m.time,
                                accel: activity_accel_seq(body, nt) + m.accel,
                                lux: m.lux,
                                meta: m.meta,
                                events: ev + m.events,
                                rate: m.rate,
                            },
                        ),
                    }
                }
            },
            LogRecordType::Lux => {
                if payload.len() < 2 {
                    Err(DecodeError::Framing)
                } else {
                    match decode_from(bytes, next, rate) {
                        Err(e) => Err(e),
                        Ok(m) => Ok(
                            LogModel {
                                time: m.time,
                                accel: m.accel,
                                lux: seq![le_u16(payload[0], payload[1])] + m.lux,
                                meta: m.meta,
                                events: ev + m.events,
                                rate: m.rate,
                            },
                        ),
                    }
                }
            },
            LogRecordType::Parameters => {
                if !params_well_framed(payload) {
                    Err(DecodeError::Framing)
                } else {
                    let n = param_entry_count(payload);
                    let new_rate = rate_of_entries(payload, n, rate);
                    match decode_from(bytes, next, new_rate) {
                        Err(e) => Err(e),
                        Ok(m) => Ok(
                            LogModel {
                                time: m.time,
                                accel: m.accel,
                                lux: m.lux,
                                meta: meta_of_entries(payload, n) + m.meta,
                                events: ev + m.events,
                                rate: m.rate,
                            },
                        ),
                    }
                }
            },
            _ => {
                match decode_from(bytes, next, rate) {
                    Err(e) => Err(e),
                    Ok(m) => Ok(
                        LogModel {
                            time: m.time,
                            accel: m.accel,
                            lux: m.lux,
                            meta: m.meta,
                            events: ev + m.events,
                            rate: m.rate,
                        },
                    ),
                }
            },
        }
    }
}

/// The sum, over every Activity record from byte offset `pos` onward, of
/// the whole triplets its payload holds.
pub open spec fn activity_sample_total(bytes: Seq<u8>, pos: int) -> int
    decreases bytes.len() - pos,
{
    if pos < 0 || pos >= bytes.len() || !record_fits(bytes, pos) {
        0
    } else {
        let h = header_at(bytes, pos);
        let payload = record_payload(bytes, pos);
        (if record_type_of(h.record_type) is Activity {
            activity_triplet_count(payload.take(payload.len() - 1))
        } else {
            0
        }) + activity_sample_total(bytes, record_end(bytes, pos))
    }
}

/// On every stream that decodes, the number of decoded samples equals the
/// sum, over all Activity records, of the whole triplets each holds; the
/// acceleration column holds exactly three codes per sample.
pub proof fn lemma_sample_count(bytes: Seq<u8>, pos: int, rate: u32)
    requires
        decode_from(bytes, pos, rate) is Ok,
    ensures
        decode_from(bytes, pos, rate)->Ok_0.time.len() == activity_sample_total(bytes, pos),
        decode_from(bytes, pos, rate)->Ok_0.accel.len() == 3 * activity_sample_total(bytes, pos),
    decreases bytes.len() - pos,
{
    if pos < 0 || pos > bytes.len() {
    } else if pos == bytes.len() {
    } else if !record_fits(bytes, pos) {
    } else {
        let h = header_at(bytes, pos);
        let payload = record_payload(bytes, pos);
        let next = record_end(bytes, pos);
        match record_type_of(h.record_type) {
            LogRecordType::Activity => {
                lemma_sample_count(bytes, next, rate);
            },
            LogRecordType::Lux => {
                lemma_sample_count(bytes, next, rate);
            },
            LogRecordType::Parameters => {
                let n = param_entry_count(payload);
                lemma_sample_count(bytes, next, rate_of_entries(payload, n, rate));
            },
            _ => {
                lemma_sample_count(bytes, next, rate);
            },
        }
    }
}

/// A sample-rate declaration binds from the next record on, and never
/// retroactively: when an Activity record is followed by a Parameters
/// record, the Activity record's timestamps are spaced by the rate in
/// force before both, and everything after the Parameters record is
/// decoded at the rate its entries leave behind.
pub proof fn lemma_rate_update_ordering(bytes: Seq<u8>, pos: int, rate: u32)
    requires
        0 <= pos,
        decode_from(bytes, pos, rate) is Ok,
        pos < bytes.len() && record_fits(bytes, pos),
        record_type_of(header_at(bytes, pos).record_type) is Activity,
        ({
            let p1 = record_end(bytes, pos);
            p1 < bytes.len() && record_fits(bytes, p1) && record_type_of(
                header_at(bytes, p1).record_type) is Parameters
        }),
    ensures
        ({
            let p1 = record_end(bytes, pos);
            let payload0 = record_payload(bytes, pos);
            let body0 = payload0.take(payload0.len() - 1);
            let nt0 = activity_triplet_count(body0);
            let payload1 = record_payload(bytes, p1);
            let new_rate = rate_of_entries(payload1, param_entry_count(payload1), rate);
            let rest = decode_from(bytes, record_end(bytes, p1), new_rate);
            &&& rate >= 1
            &&& rest is Ok
            &&& decode_from(bytes, pos, rate)->Ok_0.time == activity_time_seq(
                header_at(bytes, pos).timestamp, rate, nt0) + rest->Ok_0.time
        }),
{
    let p1 = record_end(bytes, pos);
    let payload0 = record_payload(bytes, pos);
    let body0 = payload0.take(payload0.len() - 1);
    let nt0 = activity_triplet_count(body0);
    assert(rate >= 1);
    let rest0 = decode_from(bytes, p1, rate);
    assert(rest0 is Ok);
    let payload1 = record_payload(bytes, p1);
    assert(params_well_framed(payload1));
    let new_rate = rate_of_entries(payload1, param_entry_count(payload1), rate);
    let rest = decode_from(bytes, record_end(bytes, p1), new_rate);
    assert(rest is Ok);
    assert(rest0->Ok_0.time == rest->Ok_0.time);
    assert(decode_from(bytes, pos, rate)->Ok_0.time == activity_time_seq(
        header_at(bytes, pos).timestamp, rate, nt0) + rest0->Ok_0.time);
}

/// Decode a whole event-log byte stream, starting at the default sample
/// rate. The result is exactly what the stream model `decode_from` says,
/// in both the success and the failure case.
pub fn decode_log(bytes: &[u8]) -> (r: Result<LogData, DecodeError>)
    ensures
        decode_from(bytes@, 0, DEFAULT_SAMPLE_RATE) matches Ok(m) ==> (r matches Ok(d)
            && d.time@ == m.time && d.acceleration@ == m.accel && d.lux@ == m.lux
            && d.metadata@ == m.meta && d.events@ == m.events && d.sample_rate == m.rate),
        decode_from(bytes@, 0, DEFAULT_SAMPLE_RATE) matches Err(e) ==> r == Result::<
            LogData,
            DecodeError,
        >::Err(e),
{
    let ghost full = decode_from(bytes@, 0, DEFAULT_SAMPLE_RATE);
    let mut it = LogRecordIterator::new(bytes);
    let mut time: Vec<i64> = Vec::new();
    let mut acceleration: Vec<i16> = Vec::new();
    let mut lux: Vec<u16> = Vec::new();
    let mut metadata: Vec<MetadataEntry> = Vec::new();
    let mut events: Vec<DecodeEvent> = Vec::new();
    let mut rate: u32 = DEFAULT_SAMPLE_RATE;
    loop
        invariant
            it.wf(),
            it.buffer_spec() == bytes@,
            0 <= it.pos_spec() <= bytes@.len(),
            full == decode_from(bytes@, 0, DEFAULT_SAMPLE_RATE),
            decode_from(bytes@, it.pos_spec(), rate) matches Ok(m) ==> (full matches Ok(f)
                && f.time == time@ + m.time && f.accel == acceleration@ + m.accel
                && f.lux == lux@ + m.lux && f.meta == metadata@ + m.meta
                && f.events == events@ + m.events && f.rate == m.rate),
            decode_from(bytes@, it.pos_spec(), rate) matches Err(e) ==> full == Result::<
                LogModel,
                DecodeError,
            >::Err(e),
        decreases bytes@.len() - it.pos_spec(),
    {
        let ghost pos0 = it.pos_spec();
        let ghost rate0 = rate;
        let step = it.next();
        match step {
            RecordStep::End => {
                proof {
                    let m = decode_from(bytes@, pos0, rate0)->Ok_0;
                    let f = full->Ok_0;
                    assert(f.time =~= time@ + m.time && time@ + m.time =~= time@);
                    assert(f.accel =~= acceleration@ + m.accel
                        && acceleration@ + m.accel =~= acceleration@);
                    assert(f.lux =~= lux@ + m.lux && lux@ + m.lux =~= lux@);
                    assert(f.meta =~= metadata@ + m.meta && metadata@ + m.meta =~= metadata@);
                    assert(f.events =~= events@ + m.events && events@ + m.events =~= events@);
                }
                return Ok(
                    LogData { time, acceleration, lux, metadata, events, sample_rate: rate },
                );
            },
            RecordStep::Truncated => {
                return Err(DecodeError::Framing);
            },
            RecordStep::Record(rec) => {
                proof {
                    assert(pos0 < bytes@.len() && record_fits(bytes@, pos0));
                }
                let ghost next = record_end(bytes@, pos0);
                let ghost h = header_at(bytes@, pos0);
                let ghost payload = record_payload(bytes@, pos0);
                let ghost time_old = time@;
                let ghost accel_old = acceleration@;
                let ghost lux_old = lux@;
                let ghost meta_old = metadata@;
                let ghost events_old = events@;
                if !rec.header.valid_seperator() {
                    events.push(DecodeEvent::InvalidSeparator { separator: rec.header.separator });
                }
                let rtype = LogRecordType::from_u8(rec.header.record_type);
                if matches!(rtype, LogRecordType::Unknown) {
                    events.push(DecodeEvent::UnknownRecordType { code: rec.header.record_type });
                }
                proof {
                    assert(events@ =~= events_old + record_events(h));
                }
                match rtype {
                    LogRecordType::Activity => {
                        let body: &[u8] = vstd::slice::slice_subrange(
                            rec.data.as_slice(),
                            0,
                            rec.data.len() - 1,
                        );
                        proof {
                            assert(body@ =~= payload.take(payload.len() - 1));
                        }
                        match decode_activity(body, rec.header.timestamp, rate) {
                            Err(e) => {
                                proof {
                                    assert(rate == 0 && e == DecodeError::Config);
                                    assert(decode_from(bytes@, pos0, rate0) == Result::<
                                        LogModel,
                                        DecodeError,
                                    >::Err(DecodeError::Config));
                                }
                                return Err(e);
                            },
                            Ok(samples) => {
                                let ghost contrib_time = samples.time@;
                                let ghost contrib_accel = samples.accel@;
                                let ActivitySamples { time: mut st, accel: mut sa } = samples;
                                time.append(&mut st);
                                acceleration.append(&mut sa);
                                proof {
                                    assert(rate >= 1);
                                    let rest = decode_from(bytes@, next, rate as u32);
                                    if rest is Ok {
                                        let m = rest->Ok_0;
                                        let c = decode_from(bytes@, pos0, rate0)->Ok_0;
                                        assert(c.time == contrib_time + m.time);
                                        let f = full->Ok_0;
                                        assert((time_old + (contrib_time + m.time)) =~= (
                                        time_old + contrib_time) + m.time);
                                        assert(f.time == time@ + m.time);
                                        assert((accel_old + (contrib_accel + m.accel)) =~= (
                                        accel_old + contrib_accel) + m.accel);
                                        assert(f.accel == acceleration@ + m.accel);
                                        assert((events_old + (record_events(h) + m.events)) =~= (
                                        events_old + record_events(h)) + m.events);
                                        assert(f.events == events@ + m.events);
                                    }
                                }
                            },
                        }
                    },
                    LogRecordType::Lux => {
                        if rec.data.len() < 2 {
                            proof {
                                assert(decode_from(bytes@, pos0, rate0) == Result::<
                                    LogModel,
                                    DecodeError,
                                >::Err(DecodeError::Framing));
                            }
                            return Err(DecodeError::Framing);
                        }
                        let v = crate::records::le_u16_exec(rec.data[0], rec.data[1]);
                        lux.push(v);
                        proof {
                            let rest = decode_from(bytes@, next, rate as u32);
                            if rest is Ok {
                                let m = rest->Ok_0;
                                let f = full->Ok_0;
                                assert((lux_old + (seq![le_u16(payload[0], payload[1])] + m.lux))
                                    =~= (lux_old + seq![le_u16(payload[0], payload[1])]) + m.lux);
                                assert(lux@ =~= lux_old + seq![le_u16(payload[0], payload[1])]);
                                assert(f.lux == lux@ + m.lux);
                                assert((events_old + (record_events(h) + m.events)) =~= (events_old
                                    + record_events(h)) + m.events);
                                assert(f.events == events@ + m.events);
                            }
                        }
                    },
                    LogRecordType::Parameters => {
                        if (rec.data.len() - 1) % 8 != 0 {
                            proof {
                                assert(!params_well_framed(payload));
                                assert(decode_from(bytes@, pos0, rate0) == Result::<
                                    LogModel,
                                    DecodeError,
                                >::Err(DecodeError::Framing));
                            }
                            return Err(DecodeError::Framing);
                        }
                        let (new_rate, mut meta) = interpret_parameters(rec.data.as_slice(), rate);
                        let ghost contrib_meta = meta@;
                        rate = new_rate;
                        metadata.append(&mut meta);
                        proof {
                            assert(contrib_meta == meta_of_entries(
                                payload, param_entry_count(payload)));
                            let rest = decode_from(bytes@, next, rate as u32);
                            if rest is Ok {
                                let m = rest->Ok_0;
                                let f = full->Ok_0;
                                assert((meta_old + (contrib_meta + m.meta)) =~= (meta_old
                                    + contrib_meta) + m.meta);
                                assert(f.meta == metadata@ + m.meta);
                                assert((events_old + (record_events(h) + m.events)) =~= (events_old
                                    + record_events(h)) + m.events);
                                assert(f.events == events@ + m.events);
                            }
                        }
                    },
                    _ => {
                        proof {
                            let rest = decode_from(bytes@, next, rate as u32);
                            if rest is Ok {
                                let m = rest->Ok_0;
                                let f = full->Ok_0;
                                assert((events_old + (record_events(h) + m.events)) =~= (events_old
                                    + record_events(h)) + m.events);
                                assert(f.events == events@ + m.events);
                            }
                        }
                    },
                }
            },
        }
    }
}

} // verus!
