use actfast::actigraph::{DecodeEvent, decode_log};
use actfast::encode::encode_signed_fields;
use actfast::table::{ColumnData, SensorKind, activity_table};
use actfast::timestamp::{DecodeError, datetime_add_hz, period_ns};

fn record_bytes(record_type: u8, timestamp: u32, payload: &[u8]) -> Vec<u8> {
    let mut out = vec![0x1Eu8, record_type];
    out.extend_from_slice(&timestamp.to_le_bytes());
    out.extend_from_slice(&(payload.len() as u16).to_le_bytes());
    out.extend_from_slice(payload);
    out.push(0xEE); // checksum byte, carried but not validated
    out
}

fn record_bytes_with_separator(sep: u8, record_type: u8, timestamp: u32, payload: &[u8]) -> Vec<u8> {
    let mut out = record_bytes(record_type, timestamp, payload);
    out[0] = sep;
    out
}

fn activity_payload(triplets: &[(i16, i16, i16)]) -> Vec<u8> {
    // on the wire each triplet is Y, X, Z, 12 bits each
    let mut fields: Vec<i16> = Vec::new();
    for &(y, x, z) in triplets {
        fields.push(y);
        fields.push(x);
        fields.push(z);
    }
    encode_signed_fields(&fields, 12)
}

fn parameters_payload(entries: &[(u16, u16, u32)]) -> Vec<u8> {
    let mut out = Vec::new();
    for &(address_space, identifier, value) in entries {
        let key: u32 = ((identifier as u32) << 16) | address_space as u32;
        out.extend_from_slice(&key.to_le_bytes());
        out.extend_from_slice(&value.to_le_bytes());
    }
    out
}

#[test]
fn empty_stream_decodes_to_nothing() {
    let d = decode_log(&[]).unwrap();
    assert!(d.time.is_empty());
    assert!(d.acceleration.is_empty());
    assert!(d.lux.is_empty());
    assert!(d.metadata.is_empty());
    assert!(d.events.is_empty());
    assert_eq!(d.sample_rate, 30);
}

#[test]
fn activity_record_decodes_triplets_in_xyz_order() {
    let payload = activity_payload(&[(100, -50, 256)]);
    let stream = record_bytes(0x00, 7, &payload);
    let d = decode_log(stream.as_slice()).unwrap();
    assert_eq!(d.time.len(), 1);
    // output order is X, Y, Z though the wire order is Y, X, Z
    assert_eq!(d.acceleration, vec![-50, 100, 256]);
    assert_eq!(d.time[0], 7_000_000_000);
}

#[test]
fn sample_count_is_sum_of_whole_triplets() {
    // two activity records of 31 and 2 triplets
    let many: Vec<(i16, i16, i16)> = (0..31).map(|i| (i as i16, -(i as i16), 2 * i as i16)).collect();
    let mut stream = record_bytes(0x00, 10, &activity_payload(&many));
    stream.extend_from_slice(&record_bytes(0x00, 11, &activity_payload(&[(1, 2, 3), (4, 5, 6)])));
    let d = decode_log(stream.as_slice()).unwrap();
    assert_eq!(d.time.len(), 33);
    assert_eq!(d.acceleration.len(), 99);
}

#[test]
fn timestamps_increase_within_record_and_reset_at_next() {
    let payload = activity_payload(&[(1, 1, 1), (2, 2, 2), (3, 3, 3)]);
    let mut stream = record_bytes(0x00, 100, &payload);
    stream.extend_from_slice(&record_bytes(0x00, 90, &activity_payload(&[(9, 9, 9)])));
    let d = decode_log(stream.as_slice()).unwrap();
    assert_eq!(d.time.len(), 4);
    assert!(d.time[0] < d.time[1] && d.time[1] < d.time[2]);
    // the second record resets, non-monotonically, to its own base time
    assert_eq!(d.time[3], 90_000_000_000);
    assert!(d.time[3] < d.time[0]);
}

#[test]
fn rate_update_applies_only_to_later_records() {
    // an Activity record, a Parameters record declaring 50 Hz, another Activity record
    let act = activity_payload(&[(0, 0, 0), (0, 0, 0)]);
    let mut stream = record_bytes(0x00, 1000, &act);
    stream.extend_from_slice(&record_bytes(0x15, 1001, &parameters_payload(&[(1, 10, 50)])));
    stream.extend_from_slice(&record_bytes(0x00, 2000, &act));
    let d = decode_log(stream.as_slice()).unwrap();
    assert_eq!(d.time.len(), 4);
    // first record at the default 30 Hz
    assert_eq!(d.time[1] - d.time[0], 1_000_000_000 / 30);
    // second record at the declared 50 Hz
    assert_eq!(d.time[3] - d.time[2], 1_000_000_000 / 50);
    assert_eq!(d.sample_rate, 50);
}

#[test]
fn invalid_separator_is_reported_and_payload_still_decoded() {
    let payload = activity_payload(&[(5, 6, 7)]);
    let stream = record_bytes_with_separator(0x00, 0x00, 42, &payload);
    let d = decode_log(stream.as_slice()).unwrap();
    // the payload decoded in full despite the bad separator
    assert_eq!(d.acceleration, vec![6, 5, 7]);
    assert_eq!(d.time, vec![42_000_000_000]);
    // and the event was reported
    assert_eq!(d.events, vec![DecodeEvent::InvalidSeparator { separator: 0x00 }]);
}

#[test]
fn unknown_record_type_is_reported_and_skipped() {
    let mut stream = record_bytes(0x42, 5, &[1, 2, 3]);
    stream.extend_from_slice(&record_bytes(0x05, 6, &[0x34, 0x12]));
    let d = decode_log(stream.as_slice()).unwrap();
    assert_eq!(d.events, vec![DecodeEvent::UnknownRecordType { code: 0x42 }]);
    assert_eq!(d.lux, vec![0x1234]);
}

#[test]
fn lux_records_append_values() {
    let mut stream = record_bytes(0x05, 1, &[0xE8, 0x03]);
    stream.extend_from_slice(&record_bytes(0x05, 2, &[0x0A, 0x00]));
    let d = decode_log(stream.as_slice()).unwrap();
    assert_eq!(d.lux, vec![1000, 10]);
}

#[test]
fn truncated_stream_is_a_framing_error() {
    let mut stream = record_bytes(0x05, 1, &[0xE8, 0x03]);
    stream.pop();
    assert_eq!(decode_log(stream.as_slice()).err(), Some(DecodeError::Framing));
}

#[test]
fn zero_declared_rate_makes_activity_fatal() {
    let mut stream = record_bytes(0x15, 1, &parameters_payload(&[(1, 10, 0)]));
    stream.extend_from_slice(&record_bytes(0x00, 2, &activity_payload(&[(1, 1, 1)])));
    assert_eq!(decode_log(stream.as_slice()).err(), Some(DecodeError::Config));
}

#[test]
fn battery_record_is_skipped_silently() {
    let stream = record_bytes(0x02, 9, &[1, 2, 3, 4]);
    let d = decode_log(stream.as_slice()).unwrap();
    assert!(d.events.is_empty());
    assert!(d.time.is_empty());
}

#[test]
fn end_to_end_parameters_then_activity() {
    // one Parameters record (SampleRate = 100) followed by one Activity
    // record of exactly 3 triplets (y=100, x=-50, z=256) each
    let mut stream = record_bytes(0x15, 1600000000, &parameters_payload(&[(1, 10, 100)]));
    let base: u32 = 1600000000;
    let triplets = [(100i16, -50i16, 256i16); 3];
    stream.extend_from_slice(&record_bytes(0x00, base, &activity_payload(&triplets)));
    let d = decode_log(stream.as_slice()).unwrap();

    // three rows of acceleration in x, y, z order
    assert_eq!(d.time.len(), 3);
    assert_eq!(d.acceleration.len(), 9);
    for row in 0..3 {
        assert_eq!(d.acceleration[3 * row], -50);
        assert_eq!(d.acceleration[3 * row + 1], 100);
        assert_eq!(d.acceleration[3 * row + 2], 256);
    }
    // the conventional scale: raw / 256 g per code
    let g = d.acceleration[0] as f32 / 256.0;
    assert_eq!(g, -50.0 / 256.0);
    assert_eq!(d.acceleration[2] as f32 / 256.0, 1.0);

    // timestamps spaced 10_000_000 ns apart from the record's base second
    assert_eq!(d.time[0], base as i64 * 1_000_000_000);
    assert_eq!(d.time[1] - d.time[0], 10_000_000);
    assert_eq!(d.time[2] - d.time[1], 10_000_000);

    // the samples assemble into one sensor table named "Activity"
    let table = activity_table(d.time, d.acceleration);
    assert_eq!(table.name, "Activity");
    assert_eq!(table.datetime.len(), 3);
    let table = table.emit().unwrap();
    assert_eq!(table.columns.len(), 1);
    assert!(matches!(table.columns[0].kind, SensorKind::Acceleration));
    match &table.columns[0].data {
        ColumnData::I16(v) => assert_eq!(v.len(), 9),
        _ => panic!("expected an i16 column"),
    }
}

#[test]
fn datetime_add_hz_matches_integer_formula() {
    assert_eq!(datetime_add_hz(0, 30, 0), Ok(0));
    assert_eq!(datetime_add_hz(0, 30, 1), Ok(33_333_333));
    assert_eq!(datetime_add_hz(1, 100, 3), Ok(1_000_000_000 + 30_000_000));
    assert_eq!(datetime_add_hz(5, 0, 1), Err(DecodeError::Config));
}

#[test]
fn period_is_floor_of_nanoseconds_per_sample() {
    assert_eq!(period_ns(30), Ok(33_333_333));
    assert_eq!(period_ns(100), Ok(10_000_000));
    assert_eq!(period_ns(0), Err(DecodeError::Config));
}
