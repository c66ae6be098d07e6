use std::cmp::Ordering;

use xeval::codec::{
    decode_datums, decode_i64, decode_u64, encode_datums, encode_i64, encode_u64, parse_decimal,
    BYTES_TAG, INT_TAG, NIL_TAG, UINT_TAG,
};
use xeval::datum::Datum;
use xeval::error::{Error, ErrorKind};
use xeval::text::validate_utf8;

#[test]
fn test_integer_round_trip() {
    let signed = vec![0i64, 1, -1, 100, i64::MIN, i64::MAX];
    for v in signed {
        assert_eq!(decode_i64(&encode_i64(v)).unwrap(), v);
    }
    let unsigned = vec![0u64, 1, 1024, u64::MAX];
    for v in unsigned {
        assert_eq!(decode_u64(&encode_u64(v)).unwrap(), v);
    }
}

#[test]
fn test_big_endian_layout() {
    assert_eq!(encode_u64(1), vec![0, 0, 0, 0, 0, 0, 0, 1]);
    assert_eq!(encode_u64(0x0102030405060708), vec![1, 2, 3, 4, 5, 6, 7, 8]);
    assert_eq!(encode_i64(-1), vec![0xff; 8]);
    assert_eq!(decode_u64(&[0, 0, 0, 0, 0, 0, 1, 0]).unwrap(), 256);
}

#[test]
fn test_integer_decode_length_errors() {
    assert_eq!(decode_i64(&[1, 2, 3]), Err(Error::InvalidLength));
    assert_eq!(decode_u64(&[0; 9]), Err(Error::InvalidLength));
    assert_eq!(Error::InvalidLength.kind(), ErrorKind::Codec);
}

#[test]
fn test_parse_decimal() {
    assert_eq!(parse_decimal(b"0").unwrap(), 0);
    assert_eq!(parse_decimal(b"42").unwrap(), 42);
    assert_eq!(parse_decimal(b"-17").unwrap(), -17);
    assert_eq!(parse_decimal(b"9223372036854775807").unwrap(), i64::MAX);
    assert_eq!(parse_decimal(b"-9223372036854775808").unwrap(), i64::MIN);
    assert_eq!(parse_decimal(b""), Err(Error::InvalidNumber));
    assert_eq!(parse_decimal(b"-"), Err(Error::InvalidNumber));
    assert_eq!(parse_decimal(b"12a"), Err(Error::InvalidNumber));
    assert_eq!(parse_decimal(b"9223372036854775808"), Err(Error::InvalidNumber));
    assert_eq!(parse_decimal(b"-9223372036854775809"), Err(Error::InvalidNumber));
    assert_eq!(Error::InvalidNumber.kind(), ErrorKind::Eval);
}

#[test]
fn test_value_list_round_trip() {
    let list = vec![
        Datum::Null,
        Datum::I64(-5),
        Datum::I64(7),
        Datum::U64(u64::MAX),
        Datum::Bytes(b"abc".to_vec()),
        Datum::Bytes(vec![]),
    ];
    let encoded = encode_datums(&list).unwrap();
    assert_eq!(decode_datums(&encoded).unwrap(), list);
}

#[test]
fn test_value_list_layout() {
    let encoded = encode_datums(&vec![Datum::Null, Datum::I64(1)]).unwrap();
    let mut expected = vec![NIL_TAG, INT_TAG];
    expected.extend_from_slice(&encode_i64(1));
    assert_eq!(encoded, expected);

    let encoded = encode_datums(&vec![Datum::Bytes(b"hi".to_vec())]).unwrap();
    let mut expected = vec![BYTES_TAG];
    expected.extend_from_slice(&encode_u64(2));
    expected.extend_from_slice(b"hi");
    assert_eq!(encoded, expected);
}

#[test]
fn test_value_list_decode_errors() {
    assert_eq!(decode_datums(&[INT_TAG, 0, 0]), Err(Error::Truncated));
    assert_eq!(decode_datums(&[UINT_TAG]), Err(Error::Truncated));
    let mut bytes_short = vec![BYTES_TAG];
    bytes_short.extend_from_slice(&encode_u64(5));
    bytes_short.extend_from_slice(b"ab");
    assert_eq!(decode_datums(&bytes_short), Err(Error::Truncated));
    assert_eq!(decode_datums(&[0x77]), Err(Error::UnknownTag(0x77)));
    assert_eq!(Error::UnknownTag(0x77).kind(), ErrorKind::Codec);
}

#[test]
fn test_value_list_rejects_floats() {
    assert_eq!(encode_datums(&vec![Datum::F64(0)]), Err(Error::Unimplemented));
    assert_eq!(Error::Unimplemented.kind(), ErrorKind::Unimplemented);
}

#[test]
fn test_datum_order() {
    // integers compare as mathematical integers across signedness
    assert_eq!(Datum::I64(-1).cmp(&Datum::U64(0)).unwrap(), Ordering::Less);
    assert_eq!(Datum::U64(u64::MAX).cmp(&Datum::I64(1)).unwrap(), Ordering::Greater);
    assert_eq!(Datum::I64(5).cmp(&Datum::U64(5)).unwrap(), Ordering::Equal);
    // bytes compare lexicographically
    assert_eq!(
        Datum::Bytes(b"ab".to_vec()).cmp(&Datum::Bytes(b"abc".to_vec())).unwrap(),
        Ordering::Less
    );
    assert_eq!(
        Datum::Bytes(b"b".to_vec()).cmp(&Datum::Bytes(b"abc".to_vec())).unwrap(),
        Ordering::Greater
    );
    // bytes meet integers through the decimal parse
    assert_eq!(Datum::Bytes(b"10".to_vec()).cmp(&Datum::I64(9)).unwrap(), Ordering::Greater);
    assert_eq!(Datum::I64(10).cmp(&Datum::Bytes(b"10".to_vec())).unwrap(), Ordering::Equal);
    assert_eq!(Datum::I64(10).cmp(&Datum::Bytes(b"x".to_vec())), Err(Error::InvalidNumber));
    // the null value sorts first
    assert_eq!(Datum::Null.cmp(&Datum::I64(i64::MIN)).unwrap(), Ordering::Less);
    assert_eq!(Datum::Null.cmp(&Datum::Null).unwrap(), Ordering::Equal);
    // floats are not supported
    assert_eq!(Datum::F32(0).cmp(&Datum::I64(0)), Err(Error::Unimplemented));
}

#[test]
fn test_utf8_validation() {
    assert!(validate_utf8(b"plain ascii"));
    assert!(validate_utf8("žluťoučký kůň 🐴".as_bytes()));
    assert!(!validate_utf8(&[0xff]));
    assert!(!validate_utf8(&[0xc2]));
    assert!(!validate_utf8(&[0xe0, 0x80, 0x80])); // overlong
    assert!(!validate_utf8(&[0xed, 0xa0, 0x80])); // surrogate
    assert!(!validate_utf8(&[0xf4, 0x90, 0x80, 0x80])); // above U+10FFFF
    // agree with the standard library on a sample
    let samples: Vec<&[u8]> = vec![
        b"",
        b"a",
        &[0xc2, 0xa0],
        &[0xe2, 0x82, 0xac],
        &[0xf0, 0x9f, 0x90, 0xb4],
        &[0x80],
        &[0xc0, 0xaf],
    ];
    for s in samples {
        assert_eq!(validate_utf8(s), std::str::from_utf8(s).is_ok());
    }
}
