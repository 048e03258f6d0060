use actfast::format::{FileFormat, classify_magic};
use actfast::table::{ColumnData, SensorKind, SensorTable, ShapeMismatch};

#[test]
fn emit_accepts_matching_column() {
    let mut t = SensorTable::new("Lux".to_owned());
    t.push_datetime(1);
    t.push_datetime(2);
    t.append_column(SensorKind::Lux, ColumnData::U16(vec![10, 20]));
    assert!(t.emit().is_ok());
}

#[test]
fn emit_accepts_multiple_values_per_timestamp() {
    let mut t = SensorTable::new("Activity".to_owned());
    t.push_datetime(1);
    t.push_datetime(2);
    t.append_column(SensorKind::Acceleration, ColumnData::I16(vec![1, 2, 3, 4, 5, 6]));
    assert!(t.emit().is_ok());
}

#[test]
fn emit_rejects_indivisible_column_length() {
    // an acceleration column of 3 values per sample whose length is not a
    // whole multiple of the axis length fails emission
    let mut t = SensorTable::new("Activity".to_owned());
    t.push_datetime(1);
    t.push_datetime(2);
    t.append_column(SensorKind::Acceleration, ColumnData::I16(vec![1, 2, 3, 4, 5]));
    assert_eq!(t.emit().err(), Some(ShapeMismatch {}));
}

#[test]
fn emit_rejects_column_shorter_than_axis() {
    let mut t = SensorTable::new("Battery".to_owned());
    t.push_datetime(1);
    t.push_datetime(2);
    t.append_column(SensorKind::Battery, ColumnData::U32(vec![]));
    assert!(t.emit().is_err());
}

#[test]
fn emit_allows_any_column_on_empty_axis() {
    let mut t = SensorTable::new("Lux".to_owned());
    t.append_column(SensorKind::Lux, ColumnData::U16(vec![7, 8, 9]));
    assert!(t.emit().is_ok());
}

#[test]
fn magic_bytes_classify_formats() {
    assert_eq!(classify_magic(b"PK\x03\x04"), Some(FileFormat::ActigraphGt3x));
    assert_eq!(classify_magic(b"Devi"), Some(FileFormat::GeneactivBin));
    assert_eq!(classify_magic(b"MDxx"), Some(FileFormat::AxivityCwa));
    assert_eq!(classify_magic(b"????"), None);
}
