use bytes::{BufMut, BytesMut};

use simple_redis::resp::decode::RespDecode;
use simple_redis::{
    BulkString, RespArray, RespError, RespFrame, RespMap, RespNull, RespNullArray,
    RespNullBulkString, RespSet, SimpleError, SimpleString,
};

#[test]
fn test_simple_string_decode() {
    let mut buf = BytesMut::from("+OK\r\n");
    let frame = SimpleString::decode(&mut buf).unwrap();
    assert_eq!(frame, SimpleString::new(b"OK".to_vec()));

    let mut buf = BytesMut::from("+hello\r");
    let ret = SimpleString::decode(&mut buf);
    assert_eq!(ret.unwrap_err(), RespError::NotComplete);

    buf.put_u8(b'\n');
    assert_eq!(
        SimpleString::decode(&mut buf).unwrap(),
        SimpleString::new(b"hello".to_vec())
    );
}

#[test]
fn test_simple_error_decode() {
    let mut buf = BytesMut::from("-ERR\r\n");
    let frame = SimpleError::decode(&mut buf).unwrap();
    assert_eq!(frame, SimpleError::new(b"ERR".to_vec()));
}

#[test]
fn test_integer_decode() {
    let mut buf = BytesMut::from(":123\r\n");
    let frame = i64::decode(&mut buf).unwrap();
    assert_eq!(frame, 123);

    let mut buf = BytesMut::from(":massless\r\n");
    let ret = i64::decode(&mut buf);
    println!("{:?}", ret);
    assert!(ret.is_err());
}

#[test]
fn test_bool_decode() {
    let mut buf = BytesMut::from("#t\r\n");
    let frame = bool::decode(&mut buf).unwrap();
    assert!(frame);

    let mut buf = BytesMut::from("#f\r\n");
    let frame = bool::decode(&mut buf).unwrap();
    assert!(!frame);
}

#[test]
fn test_double_decode() {
    let mut buf = BytesMut::from(",123.45\r\n");
    let frame = simple_redis::RespDouble::decode(&mut buf).unwrap();
    let parsed: f64 = String::from_utf8(frame.0.clone()).unwrap().parse().unwrap();
    assert_eq!(parsed, 123.45);

    let mut buf = BytesMut::from(",+1.23456e-9\r\n");
    let frame = simple_redis::RespDouble::decode(&mut buf).unwrap();
    let parsed: f64 = String::from_utf8(frame.0.clone()).unwrap().parse().unwrap();
    assert_eq!(parsed, 1.23456e-9);
}

#[test]
fn test_array_decode() {
    let mut buf = BytesMut::new();
    buf.extend_from_slice(b"*2\r\n$3\r\nset\r\n$5\r\nhello\r\n");

    let frame = RespArray::decode(&mut buf).unwrap();
    assert_eq!(
        frame,
        RespArray::new(vec![
            RespFrame::BulkString(BulkString::new(b"set".to_vec())),
            RespFrame::BulkString(BulkString::new(b"hello".to_vec())),
        ])
    );

    buf.extend_from_slice(b"*2\r\n$3\r\nset\r\n");
    let ret = RespArray::decode(&mut buf);
    assert_eq!(ret.unwrap_err(), RespError::NotComplete);

    buf.extend_from_slice(b"$5\r\nhello\r\n");
    let frame = RespArray::decode(&mut buf).unwrap();
    assert_eq!(
        frame,
        RespArray::new(vec![
            RespFrame::BulkString(BulkString::new(b"set".to_vec())),
            RespFrame::BulkString(BulkString::new(b"hello".to_vec())),
        ])
    );
}

#[test]
fn test_map_decode() {
    let mut buf = BytesMut::from("%2\r\n+hello\r\n$5\r\nworld\r\n+foo\r\n$3\r\nbar\r\n");
    let frame = RespMap::decode(&mut buf).unwrap();

    let mut map = RespMap::new();
    map.insert(
        b"hello".to_vec(),
        RespFrame::BulkString(BulkString::new(b"world".to_vec())),
    );
    map.insert(
        b"foo".to_vec(),
        RespFrame::BulkString(BulkString::new(b"bar".to_vec())),
    );
    assert_eq!(frame, map);
}

#[test]
fn test_set_decode() {
    let mut buf = BytesMut::new();
    buf.extend_from_slice(b"~2\r\n$3\r\nset\r\n$5\r\nhello\r\n");

    let frame = RespSet::decode(&mut buf).unwrap();
    assert_eq!(
        frame,
        RespSet::new(vec![
            RespFrame::BulkString(BulkString::new(b"set".to_vec())),
            RespFrame::BulkString(BulkString::new(b"hello".to_vec())),
        ])
    );
}

#[test]
fn test_null_decode() {
    let mut buf = BytesMut::from("_\r\n");
    let frame = RespNull::decode(&mut buf).unwrap();
    assert_eq!(frame, RespNull);
    assert_eq!(buf.len(), 0);
}

#[test]
fn test_null_array_decode() {
    let mut buf = BytesMut::from("*-1\r\nrest");
    let frame = RespNullArray::decode(&mut buf).unwrap();
    assert_eq!(frame, RespNullArray);
    assert_eq!(&buf[..], b"rest");
}

#[test]
fn test_null_bulk_string_decode() {
    let mut buf = BytesMut::from("$-1\r\n");
    let frame = RespNullBulkString::decode(&mut buf).unwrap();
    assert_eq!(frame, RespNullBulkString);
    assert_eq!(buf.len(), 0);
}

#[test]
fn test_bulk_string_decode() {
    let mut buf = BytesMut::from("$5\r\nhello\r\nX");
    let frame = BulkString::decode(&mut buf).unwrap();
    assert_eq!(frame, BulkString::new(b"hello".to_vec()));
    assert_eq!(&buf[..], b"X");
}

#[test]
fn test_parse_int_error() {
    let mut buf = BytesMut::from(":12a\r\n");
    assert_eq!(i64::decode(&mut buf).unwrap_err(), RespError::ParseIntError);
    // nothing was consumed
    assert_eq!(&buf[..], b":12a\r\n");
}

#[test]
fn test_parse_float_error() {
    let mut buf = BytesMut::from(",12..5\r\n");
    assert_eq!(
        simple_redis::RespDouble::decode(&mut buf).unwrap_err(),
        RespError::ParseFloatError
    );
}

#[test]
fn test_unknown_prefix_is_invalid_frame_type() {
    let mut buf = BytesMut::from("!boom\r\n");
    match RespFrame::decode(&mut buf).unwrap_err() {
        RespError::InvalidFrameType(_) => {}
        other => panic!("{:?}", other),
    }
}

#[test]
fn test_bulk_string_bad_ending_is_invalid_frame() {
    let mut buf = BytesMut::from("$2\r\nabXY");
    match BulkString::decode(&mut buf).unwrap_err() {
        RespError::InvalidFrame(_) => {}
        other => panic!("{:?}", other),
    }
    // the buffer is untouched on errors
    assert_eq!(&buf[..], b"$2\r\nabXY");
}

#[test]
fn test_aggregate_length_overrun_is_not_complete() {
    // header says five elements; only two are here
    let mut buf = BytesMut::from("*5\r\n:1\r\n:2\r\n");
    assert_eq!(RespFrame::decode(&mut buf).unwrap_err(), RespError::NotComplete);
    assert_eq!(&buf[..], b"*5\r\n:1\r\n:2\r\n");
}

#[test]
fn test_map_decode_duplicate_key_last_wins() {
    let mut buf = BytesMut::from("%2\r\n+a\r\n:1\r\n+a\r\n:2\r\n");
    let frame = RespMap::decode(&mut buf).unwrap();
    let mut expected = RespMap::new();
    expected.insert(b"a".to_vec(), RespFrame::Integer(2));
    assert_eq!(frame, expected);
}

#[test]
fn test_map_insert_replaces_existing_key() {
    let mut map = RespMap::new();
    map.insert(b"k".to_vec(), RespFrame::Integer(1));
    map.insert(b"k".to_vec(), RespFrame::Integer(2));
    let mut expected = RespMap::new();
    expected.insert(b"k".to_vec(), RespFrame::Integer(2));
    assert_eq!(map, expected);
}
