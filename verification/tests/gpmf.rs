use import_videos::media::gpmf::{parse_gps_payload, KlvIter, Scaled};

fn be_i32s(vals: &[i32]) -> Vec<u8> {
    vals.iter().flat_map(|v| v.to_be_bytes()).collect()
}

/// One KLV item: key, type, element size, BE repeat count, value,
/// zero-padded to a 4-byte boundary.
fn klv_item(key: &[u8; 4], type_char: u8, struct_size: u8, value: &[u8]) -> Vec<u8> {
    assert_eq!(value.len() % struct_size as usize, 0);
    let repeat = (value.len() / struct_size as usize) as u16;
    let mut buf = Vec::with_capacity(8 + value.len());
    buf.extend_from_slice(key);
    buf.push(type_char);
    buf.push(struct_size);
    buf.extend_from_slice(&repeat.to_be_bytes());
    buf.extend_from_slice(value);
    while buf.len() % 4 != 0 {
        buf.push(0);
    }
    buf
}

fn nested(key: &[u8; 4], children: &[Vec<u8>]) -> Vec<u8> {
    let payload = children.concat();
    klv_item(key, 0, 1, &payload)
}

fn gps_strm(extra_before: &[Vec<u8>]) -> Vec<u8> {
    let scal = klv_item(b"SCAL", b'l', 4, &be_i32s(&[10_000_000, 10_000_000, 1000, 1000, 1000]));
    let gpsu = klv_item(b"GPSU", b'U', 16, b"260709074103.250");
    let gpsf = klv_item(b"GPSF", b'L', 4, &3u32.to_be_bytes());
    let gpsp = klv_item(b"GPSP", b'S', 2, &150u16.to_be_bytes());
    let gps5 = klv_item(b"GPS5", b'l', 4, &be_i32s(&[515_012_340, -1_234_567, 100_000, 5000, 5500]));
    let mut children = extra_before.to_vec();
    children.extend([scal, gpsu, gpsf, gpsp, gps5]);
    nested(b"STRM", &children)
}

fn degrees(s: Scaled) -> f64 {
    s.raw as f64 / s.divisor as f64
}

#[test]
fn scal_scales_gps5_samples() {
    let devc = nested(b"DEVC", &[gps_strm(&[])]);
    let payload = parse_gps_payload(&devc).unwrap().unwrap();
    assert_eq!(payload.samples.len(), 1);
    assert!((degrees(payload.samples[0].lat) - 51.5012340).abs() < 1e-9);
    assert_eq!(payload.samples[0].lon, Scaled { raw: -1_234_567, divisor: 10_000_000 });
    assert_eq!(payload.samples[0].speed_3d, Scaled { raw: 5500, divisor: 1000 });
}

#[test]
fn gpsu_parsed_as_utc() {
    let gpsu = klv_item(b"GPSU", b'U', 16, b"260709074103.250");
    let klv = KlvIter::new(&gpsu).next().unwrap().unwrap();
    let ts = klv.as_utc().unwrap();
    let expected: jiff::Timestamp = "2026-07-09T07:41:03.250Z".parse().unwrap();
    assert_eq!(jiff::Timestamp::new(ts.secs, ts.nanos).unwrap(), expected);
}

#[test]
fn gpsu_with_trailing_nuls_and_long_fraction() {
    let gpsu = klv_item(b"GPSU", b'U', 24, b"260709074103.1234567895\0");
    let klv = KlvIter::new(&gpsu).next().unwrap().unwrap();
    let ts = klv.as_utc().unwrap();
    assert_eq!(ts.nanos, 123_456_790);
}

#[test]
fn gpsu_invalid_date_and_garbage_are_errors() {
    let bad_month = klv_item(b"GPSU", b'U', 16, b"261309074103.250");
    let klv = KlvIter::new(&bad_month).next().unwrap().unwrap();
    let err = klv.as_utc().unwrap_err();
    let import_videos::media::gpmf::GpmfError::Malformed(m) = err;
    assert!(m.starts_with("invalid GPSU date/time \"261309074103.250\": "), "{m}");

    let short = klv_item(b"GPSU", b'U', 4, b"2607");
    let klv = KlvIter::new(&short).next().unwrap().unwrap();
    let import_videos::media::gpmf::GpmfError::Malformed(m) = klv.as_utc().unwrap_err();
    assert_eq!(m, "malformed GPSU value \"2607\"");
}

#[test]
fn fix_and_precision_extracted() {
    let devc = nested(b"DEVC", &[gps_strm(&[])]);
    let payload = parse_gps_payload(&devc).unwrap().unwrap();
    assert_eq!(payload.fix, 3);
    assert_eq!(payload.precision, 150);
    assert!(payload.usable());
}

#[test]
fn deeply_nested_containers_are_traversed() {
    let wrap = nested(b"WRAP", &[gps_strm(&[])]);
    let devc = nested(b"DEVC", &[wrap]);
    let payload = parse_gps_payload(&devc).unwrap().unwrap();
    assert_eq!(payload.samples.len(), 1);
}

#[test]
fn unknown_streams_are_skipped() {
    let accl = nested(
        b"STRM",
        &[klv_item(b"STNM", b'c', 1, b"Accelerometer"), klv_item(b"ACCL", b's', 2, &1i16.to_be_bytes())],
    );
    let unknown = klv_item(b"XYZW", b'L', 4, &7u32.to_be_bytes());
    let devc = nested(b"DEVC", &[unknown, accl, gps_strm(&[])]);
    let payload = parse_gps_payload(&devc).unwrap().unwrap();
    assert_eq!(payload.samples.len(), 1);
    assert!((degrees(payload.samples[0].lat) - 51.5012340).abs() < 1e-9);
}

#[test]
fn payload_without_gps_stream_is_none() {
    let accl = nested(b"STRM", &[klv_item(b"ACCL", b's', 2, &1i16.to_be_bytes())]);
    let devc = nested(b"DEVC", &[accl]);
    assert!(parse_gps_payload(&devc).unwrap().is_none());
}

#[test]
fn truncated_value_fails_without_panic() {
    let mut bytes = b"GPS5".to_vec();
    bytes.push(b'l');
    bytes.push(4);
    bytes.extend_from_slice(&5u16.to_be_bytes());
    assert!(parse_gps_payload(&bytes).is_err());
}

#[test]
fn gpmf_garbage_input_fails_without_panic() {
    assert!(parse_gps_payload(&[0xFF; 3]).is_err());
}

#[test]
fn zero_scal_divisor_is_an_error() {
    let scal = klv_item(b"SCAL", b'l', 4, &be_i32s(&[0, 1, 1, 1, 1]));
    let gps5 = klv_item(b"GPS5", b'l', 4, &be_i32s(&[1, 1, 1, 1, 1]));
    let strm = nested(b"STRM", &[scal, gps5]);
    let devc = nested(b"DEVC", &[strm]);
    assert!(parse_gps_payload(&devc).is_err());
}

#[test]
fn gps5_not_a_multiple_of_five_is_an_error() {
    let gps5 = klv_item(b"GPS5", b'l', 4, &be_i32s(&[1, 1, 1, 1]));
    let devc = nested(b"DEVC", &[nested(b"STRM", &[gps5])]);
    let import_videos::media::gpmf::GpmfError::Malformed(m) = parse_gps_payload(&devc).unwrap_err();
    assert_eq!(m, "GPS5 carries 4 value(s), not a multiple of 5");
}

#[test]
fn missing_scal_divides_by_one_and_poor_fix_is_unusable() {
    let gps5 = klv_item(b"GPS5", b'l', 4, &be_i32s(&[1, 2, 3, 4, 5]));
    let devc = nested(b"DEVC", &[nested(b"STRM", &[gps5])]);
    let payload = parse_gps_payload(&devc).unwrap().unwrap();
    assert_eq!(payload.samples[0].alt, Scaled { raw: 3, divisor: 1 });
    assert_eq!(payload.fix, 0);
    assert_eq!(payload.precision, u32::MAX);
    assert!(!payload.usable());
}

#[test]
fn truncated_header_message_names_its_offset() {
    let items = [0u8; 5];
    let mut it = KlvIter::new(&items);
    let import_videos::media::gpmf::GpmfError::Malformed(m) = it.next().unwrap().unwrap_err();
    assert_eq!(m, "truncated KLV header at offset 0");
    assert!(it.next().is_none());
}

#[test]
fn encoded_items_come_back_in_order_then_none() {
    let mut data = Vec::new();
    data.extend(klv_item(b"DEVC", 0, 1, &[]));
    data.extend(klv_item(b"STNM", b'c', 1, b"GPS"));
    data.extend(klv_item(b"SCAL", b'l', 4, &[0, 0, 0, 10, 0, 0, 0, 20]));
    let mut it = KlvIter::new(&data);
    let first = it.next().unwrap().unwrap();
    assert_eq!((first.key, first.repeat, first.value.len()), (u32::from_be_bytes(*b"DEVC"), 0, 0));
    let second = it.next().unwrap().unwrap();
    assert_eq!((second.type_char, second.struct_size, second.repeat, second.value), (b'c', 1, 3, &b"GPS"[..]));
    let third = it.next().unwrap().unwrap();
    assert_eq!((third.key, third.repeat, third.value), (u32::from_be_bytes(*b"SCAL"), 2, &[0, 0, 0, 10, 0, 0, 0, 20][..]));
    assert!(it.next().is_none());
}

#[test]
fn unreadable_item_yields_its_error_once_then_nothing() {
    let short = [0xFFu8; 3];
    let mut it = KlvIter::new(&short);
    assert!(matches!(it.next(), Some(Err(_))));
    assert!(it.next().is_none());
    assert!(it.next().is_none());

    let mut truncated = b"GPS5".to_vec();
    truncated.extend_from_slice(&[b'l', 4, 0, 5]);
    let mut it = KlvIter::new(&truncated);
    assert!(matches!(it.next(), Some(Err(_))));
    assert!(it.next().is_none());
}
