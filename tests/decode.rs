use candump::{
    parse_digits, parse_line, parse_payload, parse_timestamp, CanDumpRecord, ConstructionError,
    ParseError, Reader,
};

fn reader(text: &[u8]) -> Reader {
    Reader::from_bytes(text.to_vec())
}

fn one_line(text: &str) -> Result<CanDumpRecord, ParseError> {
    parse_line(text.as_bytes())
}

#[test]
fn classic_frame_line() {
    let mut r = reader(b"(1610000000.123456) can0 7E8#0102030405060708\n");
    let rec = r.next_record().unwrap().unwrap();
    assert_eq!(rec.t_us, 1610000000123456);
    assert_eq!(rec.device, "can0");
    assert_eq!(rec.frame.id(), 0x7E8);
    assert_eq!(rec.frame.data(), &[1u8, 2, 3, 4, 5, 6, 7, 8][..]);
    assert!(!rec.frame.is_rtr());
    assert!(!rec.frame.is_error());
    assert!(r.next_record().unwrap().is_none());
}

#[test]
fn remote_request_line() {
    let mut r = reader(b"(0.0) can0 123#R\n");
    let rec = r.next_record().unwrap().unwrap();
    assert_eq!(rec.t_us, 0);
    assert_eq!(rec.device, "can0");
    assert_eq!(rec.frame.id(), 0x123);
    assert!(rec.frame.data().is_empty());
    assert!(rec.frame.is_rtr());
    assert!(!rec.frame.is_error());
}

#[test]
fn remote_marker_is_exact() {
    assert!(parse_payload(b"123#R").unwrap().is_rtr());
    assert!(matches!(parse_payload(b"123#RR"), Err(ParseError::InvalidCanFrame)));
    assert!(matches!(parse_payload(b"123#r"), Err(ParseError::InvalidCanFrame)));
}

#[test]
fn timestamp_is_exact() {
    let rec = one_line("(12.345) vcan1 1#00").unwrap();
    assert_eq!(rec.t_us, 12_000_345);
    assert_eq!(parse_timestamp(b"(1.000001)"), Some(1_000_001));
    assert_eq!(parse_timestamp(b"(0.999999)"), Some(999_999));
}

#[test]
fn timestamp_saturates() {
    assert_eq!(parse_timestamp(b"(18446744073710.0)"), Some(u64::MAX));
    assert_eq!(parse_timestamp(b"(18446744073709.551615)"), Some(u64::MAX));
    assert_eq!(parse_timestamp(b"(18446744073709.551614)"), Some(u64::MAX - 1));
    assert_eq!(parse_timestamp(b"(18446744073709.551616)"), Some(u64::MAX));
    assert_eq!(parse_timestamp(b"(18446744073709551615.5)"), Some(u64::MAX));
    let rec = one_line("(18446744073709551615.18446744073709551615) can0 1#").unwrap();
    assert_eq!(rec.t_us, u64::MAX);
}

#[test]
fn timestamp_part_too_large() {
    assert_eq!(parse_timestamp(b"(18446744073709551616.0)"), None);
    assert_eq!(parse_timestamp(b"(0.18446744073709551616)"), None);
}

#[test]
fn hex_round_trip_all_lengths() {
    let bytes: [u8; 8] = [0x00, 0x7f, 0x80, 0xff, 0x12, 0xab, 0xcd, 0x5e];
    for n in 0..=8 {
        let data = &bytes[..n];
        for text in [hex::encode(data), hex::encode_upper(data)] {
            let payload = format!("1A#{}", text);
            let frame = parse_payload(payload.as_bytes()).unwrap();
            assert_eq!(frame.data(), data);
            assert_eq!(frame.id(), 0x1A);
            assert!(!frame.is_rtr());
        }
    }
}

#[test]
fn bad_hex_is_invalid_frame() {
    assert!(matches!(one_line("(1.0) can0 123#ABC"), Err(ParseError::InvalidCanFrame)));
    assert!(matches!(one_line("(1.0) can0 123#ZZ"), Err(ParseError::InvalidCanFrame)));
    assert!(matches!(parse_payload(b"123#0"), Err(ParseError::InvalidCanFrame)));
    assert!(matches!(parse_payload(b"123#0g"), Err(ParseError::InvalidCanFrame)));
}

#[test]
fn missing_separator_or_bad_id() {
    assert!(matches!(parse_payload(b"1230102"), Err(ParseError::InvalidCanFrame)));
    assert!(matches!(parse_payload(b"#0102"), Err(ParseError::InvalidCanFrame)));
    assert!(matches!(parse_payload(b"XYZ#0102"), Err(ParseError::InvalidCanFrame)));
    assert!(matches!(parse_payload(b"0x12#0102"), Err(ParseError::InvalidCanFrame)));
    assert!(matches!(parse_payload(b"100000000#01"), Err(ParseError::InvalidCanFrame)));
}

#[test]
fn two_fields_end_early() {
    assert!(matches!(one_line("(1.5) can0"), Err(ParseError::UnexpectedEndOfLine)));
    let mut r = reader(b"(1.5) can0\n");
    assert!(matches!(r.next_record(), Err(ParseError::UnexpectedEndOfLine)));
}

#[test]
fn one_field_ends_early() {
    assert!(matches!(one_line("(1.5)"), Err(ParseError::UnexpectedEndOfLine)));
}

#[test]
fn timestamp_shape_errors() {
    assert!(matches!(one_line("(123) can0 1#00"), Err(ParseError::InvalidTimestamp)));
    assert!(matches!(one_line("123.4 can0 1#00"), Err(ParseError::InvalidTimestamp)));
    assert!(matches!(one_line("(123.4 can0 1#00"), Err(ParseError::InvalidTimestamp)));
    assert!(matches!(one_line("(.4) can0 1#00"), Err(ParseError::InvalidTimestamp)));
    assert!(matches!(one_line("(1.) can0 1#00"), Err(ParseError::InvalidTimestamp)));
    assert!(matches!(one_line("(1.2.3) can0 1#00"), Err(ParseError::InvalidTimestamp)));
    assert!(matches!(one_line("(+1.2) can0 1#00"), Err(ParseError::InvalidTimestamp)));
    assert!(matches!(one_line("( 1.2) can0 1#00"), Err(ParseError::InvalidTimestamp)));
    assert!(matches!(one_line(""), Err(ParseError::InvalidTimestamp)));
}

#[test]
fn empty_source_has_no_records() {
    let mut r = reader(b"");
    assert!(r.next_record().unwrap().is_none());
    assert!(r.next_record().unwrap().is_none());
}

#[test]
fn invalid_device_name() {
    let r = parse_line(b"(1.0) \xff\xfe 1#00");
    assert!(matches!(r, Err(ParseError::InvalidDeviceName)));
}

#[test]
fn non_ascii_device_name() {
    let rec = parse_line("(1.0) gerät 1#00".as_bytes()).unwrap();
    assert_eq!(rec.device, "gerät");
}

#[test]
fn construction_errors_are_wrapped() {
    assert!(matches!(
        one_line("(1.0) can0 20000000#00"),
        Err(ParseError::ConstructionError(ConstructionError::IdTooLarge))
    ));
    assert!(matches!(
        one_line("(1.0) can0 1#010203040506070809"),
        Err(ParseError::ConstructionError(ConstructionError::TooMuchData))
    ));
    let rec = one_line("(1.0) can0 1FFFFFFF#").unwrap();
    assert_eq!(rec.frame.id(), 0x1FFF_FFFF);
    assert!(rec.frame.is_extended());
}

#[test]
fn reader_goes_on_after_error() {
    let mut r = reader(b"garbage\n(2.000003) can1 7FF#AA\n(3.0) can1 800#R");
    assert!(matches!(r.next_record(), Err(ParseError::InvalidTimestamp)));
    let rec = r.next_record().unwrap().unwrap();
    assert_eq!(rec.t_us, 2_000_003);
    assert_eq!(rec.device, "can1");
    assert_eq!(rec.frame.data(), &[0xAAu8][..]);
    assert!(!rec.frame.is_extended());
    let rec = r.next_record().unwrap().unwrap();
    assert_eq!(rec.t_us, 3_000_000);
    assert!(rec.frame.is_extended());
    assert!(r.next_record().unwrap().is_none());
}

#[test]
fn extra_fields_are_ignored() {
    let rec = one_line("(1.0) can0 10#FF extra").unwrap();
    assert_eq!(rec.frame.data(), &[0xFFu8][..]);
}

#[test]
fn records_stop_after_error() {
    let mut r = reader(b"(1.0) can0 1#01\n(2.0) can0\n(3.0) can0 3#03\n");
    let mut recs = r.records();
    let first = recs.next().unwrap().unwrap();
    assert_eq!(first.t_us, 1_000_000);
    assert!(matches!(recs.next(), Some(Err(ParseError::UnexpectedEndOfLine))));
    assert!(recs.next().is_none());
    assert!(recs.next().is_none());
}

#[test]
fn records_end_with_input() {
    let mut r = reader(b"(1.0) can0 1#01\n(2.0) can0 2#0203\n");
    let mut recs = r.records();
    let a = recs.next().unwrap().unwrap();
    let b = recs.next().unwrap().unwrap();
    assert_eq!(a.frame.id(), 1);
    assert_eq!(b.frame.data(), &[2u8, 3][..]);
    assert_eq!(b.t_us, 2_000_000);
    assert!(recs.next().is_none());
    assert!(recs.next().is_none());
}

#[test]
fn digits_parse_strictly() {
    assert_eq!(parse_digits(b"0", 10, u64::MAX), Some(0));
    assert_eq!(parse_digits(b"18446744073709551615", 10, u64::MAX), Some(u64::MAX));
    assert_eq!(parse_digits(b"18446744073709551616", 10, u64::MAX), None);
    assert_eq!(parse_digits(b"", 10, u64::MAX), None);
    assert_eq!(parse_digits(b"+1", 10, u64::MAX), None);
    assert_eq!(parse_digits(b"1a", 10, u64::MAX), None);
    assert_eq!(parse_digits(b"7e8", 16, u64::MAX), Some(0x7e8));
    assert_eq!(parse_digits(b"FFFFFFFF", 16, u32::MAX as u64), Some(0xFFFF_FFFF));
    assert_eq!(parse_digits(b"100000000", 16, u32::MAX as u64), None);
    assert_eq!(parse_digits(b"1g", 16, u64::MAX), None);
}
