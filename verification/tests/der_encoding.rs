use chrono::TimeZone;
use firmina::der::{encode_length, encode_tlv, parse_elements_in, parse_tlv_in};
use firmina::oid::{id_data, id_sha256, id_signed_data, Oid};
use firmina::order::{encode_set_of_content, lex_le_exec, sort_der};
use firmina::time::{encode_utc_time, UtcInstant};

#[test]
fn length_short_form() {
    assert_eq!(encode_length(0), vec![0x00]);
    assert_eq!(encode_length(127), vec![0x7f]);
}

#[test]
fn length_long_form() {
    assert_eq!(encode_length(128), vec![0x81, 0x80]);
    assert_eq!(encode_length(255), vec![0x81, 0xff]);
    assert_eq!(encode_length(256), vec![0x82, 0x01, 0x00]);
    assert_eq!(encode_length(0x1234567), vec![0x84, 0x01, 0x23, 0x45, 0x67]);
}

#[test]
fn tlv_encoding() {
    assert_eq!(encode_tlv(0x04, &[1, 2, 3]), vec![0x04, 0x03, 1, 2, 3]);
    let long = vec![7u8; 200];
    let e = encode_tlv(0x04, &long);
    assert_eq!(&e[..3], &[0x04, 0x81, 200]);
    assert_eq!(e.len(), 203);
}

#[test]
fn tlv_roundtrip() {
    let content = vec![9u8; 300];
    let mut e = encode_tlv(0x30, &content);
    e.extend_from_slice(&[0xAA, 0xBB]);
    let (t, s, end) = parse_tlv_in(&e, 0, e.len()).unwrap();
    assert_eq!(t, 0x30);
    assert_eq!(&e[s..end], &content[..]);
    assert_eq!(&e[end..], &[0xAA, 0xBB]);
}

#[test]
fn tlv_refuses_non_minimal_and_indefinite() {
    // length 5 written in the long form
    assert!(parse_tlv_in(&[0x04, 0x81, 0x05, 1, 2, 3, 4, 5], 0, 8).is_none());
    // leading zero length octet
    assert!(parse_tlv_in(&[0x04, 0x82, 0x00, 0x80], 0, 4).is_none());
    // indefinite length
    assert!(parse_tlv_in(&[0x30, 0x80, 0x00, 0x00], 0, 4).is_none());
    // contents running past the end
    assert!(parse_tlv_in(&[0x04, 0x03, 1, 2], 0, 4).is_none());
    // multi-octet tag
    assert!(parse_tlv_in(&[0x1f, 0x01, 0x00], 0, 3).is_none());
    // nothing at all
    assert!(parse_tlv_in(&[], 0, 0).is_none());
}

#[test]
fn elements_split() {
    let mut s = encode_tlv(0x02, &[1]);
    s.extend(encode_tlv(0x04, &[5, 6]));
    let es = parse_elements_in(&s, 0, s.len()).unwrap();
    assert_eq!(es, vec![vec![0x02, 0x01, 0x01], vec![0x04, 0x02, 5, 6]]);
    assert!(parse_elements_in(&[0x02, 0x05, 1], 0, 3).is_none());
}

#[test]
fn lexicographic_order() {
    assert!(lex_le_exec(&[], &[0]));
    assert!(lex_le_exec(&[1, 2], &[1, 2, 0]));
    assert!(!lex_le_exec(&[1, 3], &[1, 2, 9]));
    assert!(lex_le_exec(&[4], &[4]));
}

#[test]
fn set_of_is_sorted() {
    let xs = vec![vec![0x31, 0x01, 0x05], vec![0x04, 0x00], vec![0x30, 0x00], vec![0x04, 0x00]];
    let sorted = sort_der(xs.clone());
    assert_eq!(
        sorted,
        vec![vec![0x04, 0x00], vec![0x04, 0x00], vec![0x30, 0x00], vec![0x31, 0x01, 0x05]]
    );
    assert_eq!(encode_set_of_content(xs), vec![0x04, 0x00, 0x04, 0x00, 0x30, 0x00, 0x31, 0x01, 0x05]);
}

#[test]
fn set_of_matches_rasn() {
    let values: Vec<rasn::types::OctetString> =
        vec![vec![3u8, 1].into(), vec![1u8].into(), vec![2u8, 2, 2].into()];
    let set: rasn::types::SetOf<rasn::types::OctetString> = values.clone().into();
    let theirs = rasn::der::encode(&set).unwrap();
    let ours: Vec<Vec<u8>> = values.iter().map(|v| rasn::der::encode(v).unwrap()).collect();
    let mine = encode_tlv(0x31, &encode_set_of_content(ours));
    assert_eq!(mine, theirs);
}

#[test]
fn oid_encodings() {
    assert_eq!(id_data().as_bytes(), &[0x2a, 0x86, 0x48, 0x86, 0xf7, 0x0d, 0x01, 0x07, 0x01]);
    assert_eq!(id_signed_data().as_bytes(), &[0x2a, 0x86, 0x48, 0x86, 0xf7, 0x0d, 0x01, 0x07, 0x02]);
    assert_eq!(id_sha256().as_bytes(), &[0x60, 0x86, 0x48, 0x01, 0x65, 0x03, 0x04, 0x02, 0x01]);
}

#[test]
fn oid_matches_rasn() {
    let arcs: Vec<u32> = vec![1, 2, 840, 113549, 1, 1, 11];
    let ours = Oid::new(&arcs).unwrap();
    let theirs = rasn::der::encode(&rasn::types::ObjectIdentifier::new(arcs.clone()).unwrap()).unwrap();
    assert_eq!(encode_tlv(0x06, ours.as_bytes()), theirs);
    let big: Vec<u32> = vec![2, 999, 4294967295, 0, 127, 128];
    let ours = Oid::new(&big).unwrap();
    let theirs = rasn::der::encode(&rasn::types::ObjectIdentifier::new(big.clone()).unwrap()).unwrap();
    assert_eq!(encode_tlv(0x06, ours.as_bytes()), theirs);
}

#[test]
fn oid_refuses_invalid_arcs() {
    assert!(Oid::new(&[1]).is_none());
    assert!(Oid::new(&[3, 1]).is_none());
    assert!(Oid::new(&[1, 40]).is_none());
    assert!(Oid::new(&[0, 39]).is_some());
    assert!(Oid::new(&[2, 40]).is_some());
}

#[test]
fn utc_time_format() {
    let t = UtcInstant { year: 2025, month: 3, day: 7, hour: 9, minute: 5, second: 1, nanosecond: 0 };
    assert_eq!(encode_utc_time(&t), b"250307090501Z".to_vec());
    let leap = UtcInstant { year: 1998, month: 12, day: 31, hour: 23, minute: 59, second: 59, nanosecond: 1_000_000_000 };
    assert_eq!(encode_utc_time(&leap), b"981231235960Z".to_vec());
    let old = UtcInstant { year: -1, month: 1, day: 1, hour: 0, minute: 0, second: 0, nanosecond: 5 };
    assert_eq!(encode_utc_time(&old), b"990101000000Z".to_vec());
}

#[test]
fn utc_time_matches_rasn() {
    let dt = chrono::Utc.with_ymd_and_hms(2031, 11, 30, 17, 45, 12).unwrap();
    let theirs = rasn::der::encode(&dt).unwrap();
    let t = UtcInstant { year: 2031, month: 11, day: 30, hour: 17, minute: 45, second: 12, nanosecond: 0 };
    assert_eq!(encode_tlv(0x17, &encode_utc_time(&t)), theirs);
}

#[test]
fn distinct_oids_have_distinct_encodings() {
    let a = Oid::new(&[1, 2, 840, 113549, 1, 7, 1]).unwrap();
    let b = Oid::new(&[1, 2, 840, 113549, 1, 7, 2]).unwrap();
    let c = Oid::new(&[1, 2, 840, 113549, 1, 71]).unwrap();
    let d = Oid::new(&[2, 0]).unwrap();
    let e = Oid::new(&[1, 40 - 40]).unwrap();
    assert_ne!(a.as_bytes(), b.as_bytes());
    assert_ne!(a.as_bytes(), c.as_bytes());
    assert_ne!(d.as_bytes(), e.as_bytes());
    assert_eq!(d.as_bytes(), &[80]);
    assert_eq!(e.as_bytes(), &[40]);
}
