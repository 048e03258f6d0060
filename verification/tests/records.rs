use actfast::params::{MetadataEntry, ParameterType, interpret_parameters};
use actfast::records::{
    LogRecordHeader, LogRecordIterator, LogRecordType, RecordStep, le_u16_exec, le_u32_exec,
};

#[test]
fn header_from_bytes_decodes_fields() {
    let bytes = [0x1Eu8, 0x00, 0x78, 0x56, 0x34, 0x12, 0x0A, 0x00];
    let h = LogRecordHeader::from_bytes(&bytes);
    assert_eq!(h.separator, 0x1E);
    assert_eq!(h.record_type, 0x00);
    assert_eq!(h.timestamp, 0x12345678);
    assert_eq!(h.record_size, 10);
    assert_eq!(h.timestamp_ns(), 0x12345678i64 * 1_000_000_000);
}

#[test]
fn seperator_check() {
    let good = LogRecordHeader { separator: 0x1E, record_type: 0, timestamp: 0, record_size: 0 };
    let bad = LogRecordHeader { separator: 0x00, record_type: 0, timestamp: 0, record_size: 0 };
    assert!(good.valid_seperator());
    assert!(!bad.valid_seperator());
}

#[test]
fn record_type_code_table() {
    assert!(matches!(LogRecordType::from_u8(0x00), LogRecordType::Activity));
    assert!(matches!(LogRecordType::from_u8(0x02), LogRecordType::Battery));
    assert!(matches!(LogRecordType::from_u8(0x05), LogRecordType::Lux));
    assert!(matches!(LogRecordType::from_u8(0x15), LogRecordType::Parameters));
    assert!(matches!(LogRecordType::from_u8(0x1A), LogRecordType::Activity2));
    assert!(matches!(LogRecordType::from_u8(0x01), LogRecordType::Unknown));
    assert!(matches!(LogRecordType::from_u8(0xFF), LogRecordType::Unknown));
}

#[test]
fn parameter_code_table() {
    assert!(matches!(ParameterType::from_u16(0, 7), ParameterType::BatteryVoltage));
    assert!(matches!(ParameterType::from_u16(0, 13), ParameterType::FirmwareVersion));
    assert!(matches!(ParameterType::from_u16(1, 10), ParameterType::SampleRate));
    assert!(matches!(ParameterType::from_u16(1, 40), ParameterType::UTCOffset));
    assert!(matches!(ParameterType::from_u16(2, 10), ParameterType::Unknown));
    assert!(matches!(ParameterType::from_u16(0, 10), ParameterType::Unknown));
    assert!(matches!(ParameterType::from_u16(1, 11), ParameterType::Unknown));
}

#[test]
fn little_endian_helpers() {
    assert_eq!(le_u16_exec(0x0A, 0x00), 10);
    assert_eq!(le_u32_exec(0x78, 0x56, 0x34, 0x12), 0x12345678);
}

fn framed_record(record_type: u8, timestamp: u32, payload: &[u8]) -> Vec<u8> {
    let mut out = vec![0x1Eu8, record_type];
    out.extend_from_slice(&timestamp.to_le_bytes());
    out.extend_from_slice(&(payload.len() as u16).to_le_bytes());
    out.extend_from_slice(payload);
    out.push(0xEE); // checksum byte, carried but not validated
    out
}

#[test]
fn iterator_yields_record_then_end() {
    let stream = framed_record(0x05, 1000, &[0x34, 0x12]);
    let mut it = LogRecordIterator::new(stream.as_slice());
    match it.next() {
        RecordStep::Record(rec) => {
            assert_eq!(rec.header.record_type, 0x05);
            assert_eq!(rec.header.timestamp, 1000);
            assert_eq!(rec.header.record_size, 2);
            assert_eq!(rec.data, vec![0x34, 0x12, 0xEE]);
        }
        _ => panic!("expected a record"),
    }
    assert!(matches!(it.next(), RecordStep::End));
}

#[test]
fn iterator_reports_truncated_header() {
    let stream = [0x1Eu8, 0x00, 0x01];
    let mut it = LogRecordIterator::new(&stream);
    assert!(matches!(it.next(), RecordStep::Truncated));
}

#[test]
fn iterator_reports_truncated_payload() {
    let mut stream = framed_record(0x05, 0, &[0x01, 0x02]);
    stream.pop(); // lose the trailing checksum byte
    let mut it = LogRecordIterator::new(stream.as_slice());
    assert!(matches!(it.next(), RecordStep::Truncated));
}

#[test]
fn interpret_parameters_updates_rate_and_metadata() {
    // two entries: SampleRate (address space 1, identifier 10) = 50,
    // BatteryVoltage (address space 0, identifier 7) = 4100
    let mut payload = Vec::new();
    let key_rate: u32 = (10u32 << 16) | 1;
    payload.extend_from_slice(&key_rate.to_le_bytes());
    payload.extend_from_slice(&50u32.to_le_bytes());
    let key_batt: u32 = (7u32 << 16) | 0;
    payload.extend_from_slice(&key_batt.to_le_bytes());
    payload.extend_from_slice(&4100u32.to_le_bytes());
    payload.push(0xEE); // trailing checksum byte
    let (rate, meta) = interpret_parameters(payload.as_slice(), 30);
    assert_eq!(rate, 50);
    assert_eq!(
        meta,
        vec![
            MetadataEntry { param: ParameterType::SampleRate, value: 50 },
            MetadataEntry { param: ParameterType::BatteryVoltage, value: 4100 },
        ]
    );
}

#[test]
fn interpret_parameters_skips_unknown_for_metadata() {
    // one unknown entry: address space 9, identifier 9
    let mut payload = Vec::new();
    let key: u32 = (9u32 << 16) | 9;
    payload.extend_from_slice(&key.to_le_bytes());
    payload.extend_from_slice(&7u32.to_le_bytes());
    payload.push(0xEE);
    let (rate, meta) = interpret_parameters(payload.as_slice(), 30);
    assert_eq!(rate, 30);
    assert!(meta.is_empty());
}
