use actfast::geneactiv::{
    Calibration, calibrate_axis_num, calibrate_light_num, decode_bin, decode_page, parse_i32,
    parse_mhz, parse_page_time, scan_header, split_lines,
};
use actfast::timestamp::DecodeError;

#[test]
fn parse_i32_accepts_signed_decimals() {
    assert_eq!(parse_i32(b"0"), Some(0));
    assert_eq!(parse_i32(b"2115"), Some(2115));
    assert_eq!(parse_i32(b"-78"), Some(-78));
    assert_eq!(parse_i32(b"+9"), Some(9));
    assert_eq!(parse_i32(b"2147483647"), Some(i32::MAX));
    assert_eq!(parse_i32(b"-2147483648"), Some(i32::MIN));
}

#[test]
fn parse_i32_rejects_junk_and_overflow() {
    assert_eq!(parse_i32(b""), None);
    assert_eq!(parse_i32(b"-"), None);
    assert_eq!(parse_i32(b"12a"), None);
    assert_eq!(parse_i32(b" 12"), None);
    assert_eq!(parse_i32(b"2147483648"), None);
    assert_eq!(parse_i32(b"-2147483649"), None);
    assert_eq!(parse_i32(b"99999999999999999999"), None);
}

#[test]
fn parse_mhz_scales_to_milli_hertz() {
    assert_eq!(parse_mhz(b"100"), Some(100_000));
    assert_eq!(parse_mhz(b"85.7"), Some(85_700));
    assert_eq!(parse_mhz(b"1.234"), Some(1_234));
    assert_eq!(parse_mhz(b"0.05"), Some(50));
    assert_eq!(parse_mhz(b"12.3456"), Some(12_345));
}

#[test]
fn parse_mhz_rejects_junk() {
    assert_eq!(parse_mhz(b""), None);
    assert_eq!(parse_mhz(b"."), None);
    assert_eq!(parse_mhz(b".5"), None);
    assert_eq!(parse_mhz(b"5."), None);
    assert_eq!(parse_mhz(b"-5"), None);
    assert_eq!(parse_mhz(b"1e3"), None);
    assert_eq!(parse_mhz(b"10 Hz"), None);
}

#[test]
fn parse_page_time_reads_the_fixed_format() {
    let t = parse_page_time(b"2024-01-11 15:35:49:000").unwrap();
    assert_eq!(t.year, 2024);
    assert_eq!(t.month, 1);
    assert_eq!(t.day, 11);
    assert_eq!(t.hour, 15);
    assert_eq!(t.minute, 35);
    assert_eq!(t.second, 49);
    assert_eq!(t.milli, 0);
}

#[test]
fn parse_page_time_rejects_malformed_text() {
    assert_eq!(parse_page_time(b"2024-01-11 15:35:49"), None);
    assert_eq!(parse_page_time(b"2024/01/11 15:35:49:000"), None);
    assert_eq!(parse_page_time(b"2024-01-11 15:35:4x:000"), None);
}

#[test]
fn header_scan_collects_calibration_values() {
    let mut lines: Vec<Vec<u8>> = Vec::new();
    lines.push(b"Device Type:GENEActiv".to_vec());
    lines.push(b"x gain:2115".to_vec());
    lines.push(b"x offset:-78".to_vec());
    lines.push(b"y gain:2130".to_vec());
    lines.push(b"y offset:12".to_vec());
    lines.push(b"z gain:2088".to_vec());
    lines.push(b"z offset:-10".to_vec());
    lines.push(b"Volts:300".to_vec());
    lines.push(b"Lux:1100".to_vec());
    let cal = scan_header(&lines, 59).unwrap();
    assert_eq!(
        cal,
        Calibration {
            x_gain: 2115,
            x_offset: -78,
            y_gain: 2130,
            y_offset: 12,
            z_gain: 2088,
            z_offset: -10,
            volts: 300,
            lux: 1100,
        }
    );
}

#[test]
fn header_scan_last_declaration_wins() {
    let lines: Vec<Vec<u8>> = vec![b"Volts:100".to_vec(), b"Volts:200".to_vec()];
    let cal = scan_header(&lines, 59).unwrap();
    assert_eq!(cal.volts, 200);
}

#[test]
fn header_scan_rejects_unparseable_value() {
    let lines: Vec<Vec<u8>> = vec![b"x gain:fast".to_vec()];
    assert_eq!(scan_header(&lines, 59), Err(DecodeError::Framing));
}

#[test]
fn offset_code_calibrates_to_exact_zero() {
    // a raw axis code equal to the stored offset gives numerator zero,
    // so the calibrated value is 0.0 whatever the gain
    for gain in [1i32, 7, 2115, -3] {
        let num = calibrate_axis_num(-78, -78);
        assert_eq!(num, 0);
        assert_eq!(num as f32 / gain as f32, 0.0);
    }
    assert_ne!(calibrate_axis_num(-77, -78), 0);
}

#[test]
fn light_calibration_is_exact_in_the_numerator() {
    let num = calibrate_light_num(500, 1100);
    assert_eq!(num, 550_000);
    // the calibrated value is the numerator over the volts denominator
    assert_eq!(num as f32 / 300.0, 550_000.0 / 300.0);
}

/// Pack one 48-bit sample: 12-bit x, y, z, 10-bit light, button, pad.
fn pack_sample(x: i16, y: i16, z: i16, light: u16, button: bool) -> [u8; 6] {
    let xc = (x as u16) & 0xFFF;
    let yc = (y as u16) & 0xFFF;
    let zc = (z as u16) & 0xFFF;
    [
        (xc >> 4) as u8,
        (((xc & 0xF) << 4) | (yc >> 8)) as u8,
        (yc & 0xFF) as u8,
        (zc >> 4) as u8,
        (((zc & 0xF) << 4) | (light >> 6)) as u8,
        (((light & 0x3F) << 2) | ((button as u16) << 1)) as u8,
    ]
}

#[test]
fn page_block_decodes_samples() {
    let mut buf = Vec::new();
    buf.extend_from_slice(&pack_sample(100, -50, 256, 500, true));
    buf.extend_from_slice(&pack_sample(-2048, 2047, -1, 1023, false));
    let s = decode_page(buf.as_slice(), 1_000_000, 100_000).unwrap();
    assert_eq!(s.x_raw, vec![100, -2048]);
    assert_eq!(s.y_raw, vec![-50, 2047]);
    assert_eq!(s.z_raw, vec![256, -1]);
    assert_eq!(s.light_raw, vec![500, 1023]);
    assert_eq!(s.button, vec![true, false]);
    // 100 Hz: samples 10_000_000 ns apart from the page base time
    assert_eq!(s.time, vec![1_000_000, 11_000_000]);
}

#[test]
fn page_block_rejects_zero_rate() {
    let buf = pack_sample(1, 2, 3, 4, false);
    assert_eq!(decode_page(&buf, 0, 0).err(), Some(DecodeError::Config));
}

#[test]
fn split_lines_handles_crlf_and_final_line() {
    let lines = split_lines(b"ab\r\ncd\nef");
    assert_eq!(lines, vec![b"ab".to_vec(), b"cd".to_vec(), b"ef".to_vec()]);
    let lines = split_lines(b"one\n");
    assert_eq!(lines, vec![b"one".to_vec()]);
    assert!(split_lines(b"").is_empty());
}

#[test]
fn whole_paginated_file_decodes() {
    let mut file: Vec<u8> = Vec::new();
    // 59 header lines, some of them calibration declarations
    for i in 0..59 {
        match i {
            5 => file.extend_from_slice(b"x gain:2000\n"),
            6 => file.extend_from_slice(b"x offset:10\n"),
            7 => file.extend_from_slice(b"Volts:300\n"),
            8 => file.extend_from_slice(b"Lux:1100\n"),
            _ => file.extend_from_slice(b"Header Line\n"),
        }
    }
    // one page of ten lines
    file.extend_from_slice(b"Recorded Data\n"); // offset 0
    file.extend_from_slice(b"Sequence Number:0\n"); // offset 1
    file.extend_from_slice(b"Page Time:2024-01-11 15:35:49:000\n"); // offset 2
    file.extend_from_slice(b"Unassigned:\n"); // offset 3
    file.extend_from_slice(b"Measurement Frequency:100\n"); // offset 4
    file.extend_from_slice(b"Temperature:21.3\n"); // offset 5
    file.extend_from_slice(b"Battery voltage:4.1\n"); // offset 6
    file.extend_from_slice(b"Device Status:Recording\n"); // offset 7
    file.extend_from_slice(b"Filler\n"); // offset 8
    // offset 9: the packed sample block (no 0x0A byte inside)
    let s0 = pack_sample(10, 20, 30, 17, true);
    let s1 = pack_sample(-5, 11, -13, 800, false);
    file.extend_from_slice(&s0);
    file.extend_from_slice(&s1);
    file.push(b'\n');

    let d = decode_bin(file.as_slice()).unwrap();
    assert_eq!(d.cal.x_gain, 2000);
    assert_eq!(d.cal.x_offset, 10);
    assert_eq!(d.cal.volts, 300);
    assert_eq!(d.cal.lux, 1100);
    assert_eq!(d.x_raw, vec![10, -5]);
    assert_eq!(d.y_raw, vec![20, 11]);
    assert_eq!(d.z_raw, vec![30, -13]);
    assert_eq!(d.light_raw, vec![17, 800]);
    assert_eq!(d.button, vec![true, false]);
    assert_eq!(d.time.len(), 2);
    // 100 Hz spacing within the page
    assert_eq!(d.time[1] - d.time[0], 10_000_000);
    // the page base time is 2024-01-11 15:35:49 UTC
    assert_eq!(d.time[0], 1_704_987_349_000_000_000);
}

#[test]
fn paginated_file_with_zero_rate_page_is_fatal() {
    let mut file: Vec<u8> = Vec::new();
    for _ in 0..59 {
        file.extend_from_slice(b"Header Line\n");
    }
    for _ in 0..9 {
        file.extend_from_slice(b"Filler\n");
    }
    file.extend_from_slice(&pack_sample(1, 2, 3, 4, false));
    file.push(b'\n');
    assert_eq!(decode_bin(file.as_slice()).err(), Some(DecodeError::Config));
}
