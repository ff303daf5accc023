use bytes::{Bytes, BytesMut};
use respkv::redis::{array, bulk_string, integer, parse, resp_int, simple_string, word};
use respkv::types::{BufSplit, RESPError, RedisBufSplit, RedisValue, write_bulk_string};

fn buf(s: &[u8]) -> BytesMut {
    BytesMut::from(s)
}

#[test]
fn bulk_string_complete_decode() {
    let b = buf(b"$3\r\nfoo\r\n");
    match parse(&b, 0) {
        Ok(Some((next, RedisBufSplit::String(BufSplit(lo, hi))))) => {
            assert_eq!(next, 9);
            assert_eq!((lo, hi), (4, 7));
        }
        other => panic!("expected a complete bulk string, got {:?}", other),
    }
}

#[test]
fn word_scans_to_terminator() {
    let b = buf(b"abc\r\nrest");
    match word(&b, 0) {
        Ok(Some((next, BufSplit(lo, hi)))) => {
            assert_eq!(next, 5);
            assert_eq!((lo, hi), (0, 3));
        }
        other => panic!("expected a word, got {:?}", other),
    }
    // carriage return present but nothing after it yet
    let b2 = buf(b"abc\r");
    assert!(matches!(word(&b2, 0), Ok(None)));
}

#[test]
fn integer_words_parse() {
    let b = buf(b"123\r\n");
    assert!(matches!(integer(&b, 0), Ok(Some((5, 123)))));
    let b2 = buf(b"-42\r\n");
    assert!(matches!(integer(&b2, 0), Ok(Some((5, -42)))));
    let b3 = buf(b"12a\r\n");
    assert!(matches!(integer(&b3, 0), Err(RESPError::IntParseFailure)));
}

#[test]
fn integer_frame_decodes() {
    let b = buf(b":123\r\n");
    assert!(matches!(parse(&b, 0), Ok(Some((6, RedisBufSplit::Int(123))))));
    let b2 = buf(b":-42\r\n");
    assert!(matches!(resp_int(&b2, 1), Ok(Some((6, RedisBufSplit::Int(-42))))));
}

#[test]
fn integer_extremes() {
    let b = buf(b":9223372036854775807\r\n");
    assert!(matches!(parse(&b, 0), Ok(Some((_, RedisBufSplit::Int(i64::MAX))))));
    let b2 = buf(b":-9223372036854775808\r\n");
    assert!(matches!(parse(&b2, 0), Ok(Some((_, RedisBufSplit::Int(i64::MIN))))));
    let b3 = buf(b":9223372036854775808\r\n");
    assert!(matches!(parse(&b3, 0), Err(RESPError::IntParseFailure)));
}

#[test]
fn simple_string_decodes() {
    let b = buf(b"+OK\r\n");
    match simple_string(&b, 1) {
        Ok(Some((next, RedisBufSplit::String(BufSplit(lo, hi))))) => {
            assert_eq!(next, 5);
            assert_eq!((lo, hi), (1, 3));
        }
        other => panic!("expected a simple string, got {:?}", other),
    }
}

#[test]
fn every_strict_prefix_is_incomplete() {
    let cases: Vec<&[u8]> = vec![
        b"$3\r\nfoo\r\n",
        b"+OK\r\n",
        b":123\r\n",
        b"$0\r\n\r\n",
        b"*2\r\n$4\r\nECHO\r\n$5\r\nhello\r\n",
        b"*1\r\n*1\r\n:1\r\n",
    ];
    for full in cases {
        for m in 0..full.len() {
            let b = buf(&full[..m]);
            let r = parse(&b, 0);
            assert!(
                matches!(r, Ok(None)),
                "prefix of length {} of {:?} was not incomplete: {:?}",
                m,
                full,
                r
            );
        }
    }
}

#[test]
fn array_is_all_or_nothing() {
    // the first element is complete, the second is cut short: the whole
    // array must report incomplete, with no partial element list
    let b = buf(b"*2\r\n$4\r\nECHO\r\n$5\r\nhel");
    assert!(matches!(parse(&b, 0), Ok(None)));
    // an array missing its last element entirely
    let b2 = buf(b"*3\r\n:1\r\n:2\r\n");
    assert!(matches!(parse(&b2, 0), Ok(None)));
}

#[test]
fn array_decodes_nested() {
    let b = buf(b"*2\r\n*1\r\n:1\r\n:2\r\n");
    match parse(&b, 0) {
        Ok(Some((next, RedisBufSplit::Array(elems)))) => {
            assert_eq!(next, 16);
            assert_eq!(elems.len(), 2);
            match &elems[0] {
                RedisBufSplit::Array(inner) => {
                    assert_eq!(inner.len(), 1);
                    assert!(matches!(inner[0], RedisBufSplit::Int(1)));
                }
                other => panic!("expected a nested array, got {:?}", other),
            }
            assert!(matches!(elems[1], RedisBufSplit::Int(2)));
        }
        other => panic!("expected an array, got {:?}", other),
    }
}

#[test]
fn array_error_cases() {
    let b = buf(b"*-1\r\n");
    assert!(matches!(array(&b, 1), Ok(Some((5, RedisBufSplit::NullArray)))));
    let b2 = buf(b"*-3\r\n");
    assert!(matches!(parse(&b2, 0), Err(RESPError::BadArraySize(-3))));
}

#[test]
fn bulk_string_error_cases() {
    let b = buf(b"$-1\r\n");
    assert!(matches!(parse(&b, 0), Err(RESPError::NullBulkString)));
    let b2 = buf(b"$-5\r\n");
    assert!(matches!(bulk_string(&b2, 1), Err(RESPError::BadBulkStringSize)));
}

#[test]
fn unknown_marker_is_fatal() {
    let b = buf(b"!nonsense\r\n");
    assert!(matches!(parse(&b, 0), Err(RESPError::UnknownStartingByte)));
    // the error marker is unsupported in this core and fails the same way
    let b2 = buf(b"-ERR oops\r\n");
    assert!(matches!(parse(&b2, 0), Err(RESPError::UnknownStartingByte)));
}

#[test]
fn decode_does_not_move_the_buffer() {
    let b = buf(b"$3\r\nfoo\r\n");
    let first = parse(&b, 0);
    let second = parse(&b, 0);
    assert_eq!(first, second);
    assert_eq!(&b[..], b"$3\r\nfoo\r\n");
}

#[test]
fn bulk_round_trip_reproduces_encoding() {
    let raw: &[u8] = b"$3\r\nabc\r\n";
    let b = buf(raw);
    let (next, frame) = parse(&b, 0).unwrap().unwrap();
    assert_eq!(next, 9);
    assert!(frame.fits_within(raw.len()));
    let data = Bytes::copy_from_slice(raw);
    match frame.redis_value(&data) {
        RedisValue::String(payload) => {
            assert_eq!(&payload[..], b"abc");
            let encoded = write_bulk_string(payload);
            assert_eq!(&encoded[..], raw);
        }
        other => panic!("expected a string value, got {:?}", other),
    }
}

#[test]
fn fits_within_rejects_short_buffers() {
    let frame = RedisBufSplit::Array(vec![
        RedisBufSplit::String(BufSplit(4, 7)),
        RedisBufSplit::Int(3),
    ]);
    assert!(frame.fits_within(7));
    assert!(!frame.fits_within(6));
    assert!(!RedisBufSplit::String(BufSplit(5, 4)).fits_within(10));
}
