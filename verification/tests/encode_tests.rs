use simple_redis::resp::encode::RespEncode;
use simple_redis::{
    BulkString, RespArray, RespDouble, RespFrame, RespMap, RespNull, RespNullArray, RespSet,
    SimpleError, SimpleString,
};

/// The textual body the server writes for a double: scientific notation with
/// an explicit sign for very large or very small magnitudes, otherwise fixed
/// notation with a leading `+` for non-negative values.
fn double_body(x: f64) -> Vec<u8> {
    if x.abs() > 1e8 || x.abs() < 1e-8 {
        format!("{:+e}", x).into_bytes()
    } else {
        let sign = if x < 0.0 { "" } else { "+" };
        format!("{}{}", sign, x).into_bytes()
    }
}

#[test]
fn test_array_encode() {
    let frame: RespFrame = RespFrame::Array(RespArray::new(vec![
        RespFrame::BulkString(BulkString::new(b"set".to_vec())),
        RespFrame::BulkString(BulkString::new(b"hello".to_vec())),
        RespFrame::BulkString(BulkString::new(b"world".to_vec())),
    ]));
    assert_eq!(
        frame.encode(),
        b"*3\r\n$3\r\nset\r\n$5\r\nhello\r\n$5\r\nworld\r\n".to_vec()
    );
}

#[test]
fn test_null_array_encode() {
    let frame: RespFrame = RespFrame::NullArray(RespNullArray);
    assert_eq!(frame.encode(), b"*-1\r\n".to_vec());
}

#[test]
fn test_bool_encode() {
    let frame: RespFrame = RespFrame::Boolean(true);
    assert_eq!(frame.encode(), b"#t\r\n".to_vec());
    let frame: RespFrame = RespFrame::Boolean(false);
    assert_eq!(frame.encode(), b"#f\r\n".to_vec());
}

#[test]
fn test_double_encode() {
    let frame: RespFrame = RespFrame::Double(RespDouble::new(double_body(123.456)));
    assert_eq!(frame.encode(), b",+123.456\r\n".to_vec());
    let frame: RespFrame = RespFrame::Double(RespDouble::new(double_body(-123.456)));
    assert_eq!(frame.encode(), b",-123.456\r\n".to_vec());
    let frame: RespFrame = RespFrame::Double(RespDouble::new(double_body(1.23456e+8)));
    assert_eq!(frame.encode(), b",+1.23456e8\r\n".to_vec());
    let frame: RespFrame = RespFrame::Double(RespDouble::new(double_body(-1.23456e-9)));
    assert_eq!(frame.encode(), b",-1.23456e-9\r\n".to_vec());
}

#[test]
fn test_integer_encode() {
    let frame: RespFrame = RespFrame::Integer(123);
    assert_eq!(frame.encode(), b":123\r\n".to_vec());
    let frame: RespFrame = RespFrame::Integer(-123);
    assert_eq!(frame.encode(), b":-123\r\n".to_vec());
}

#[test]
fn test_map_encode() {
    let mut map = RespMap::new();
    map.insert(
        b"hello".to_vec(),
        RespFrame::BulkString(BulkString::new(b"world".to_vec())),
    );
    map.insert(
        b"foo".to_vec(),
        RespFrame::Double(RespDouble::new(double_body(-123456.789))),
    );
    let frame: RespFrame = RespFrame::MapFrame(map);
    assert_eq!(
        frame.encode(),
        b"%2\r\n+foo\r\n,-123456.789\r\n+hello\r\n$5\r\nworld\r\n".to_vec()
    );
}

#[test]
fn test_null_encode() {
    let frame: RespFrame = RespFrame::Null(RespNull);
    assert_eq!(frame.encode(), b"_\r\n".to_vec());
}

#[test]
fn test_set_encode() {
    let frame: RespFrame = RespFrame::SetFrame(RespSet::new(vec![
        RespFrame::Array(RespArray::new(vec![
            RespFrame::Integer(1234),
            RespFrame::Boolean(true),
        ])),
        RespFrame::BulkString(BulkString::new(b"world".to_vec())),
    ]));
    assert_eq!(frame.encode(), b"~2\r\n*2\r\n:1234\r\n#t\r\n$5\r\nworld\r\n".to_vec());
}

#[test]
fn test_simple_error_encode() {
    let frame: RespFrame = RespFrame::SimpleError(SimpleError::new(b"ERR".to_vec()));
    assert_eq!(frame.encode(), b"-ERR\r\n".to_vec());
}

#[test]
fn test_simple_string_encode() {
    let frame: RespFrame = RespFrame::SimpleString(SimpleString::new(b"OK".to_vec()));
    assert_eq!(frame.encode(), b"+OK\r\n".to_vec());
}
