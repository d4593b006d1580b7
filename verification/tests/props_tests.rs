use bytes::BytesMut;

use simple_redis::backend::Backend;
use simple_redis::cmd::{is_utf8_exec, CommandExecutor, HGetAll};
use simple_redis::network::{resp_error_reply, RedisRequest, RespFrameCodec};
use simple_redis::resp::decode::{
    calc_total_length, extract_simple_frame_data, find_crlf, parse_length,
};
use simple_redis::resp::decode::RespDecode;
use simple_redis::resp::encode::RespEncode;
use simple_redis::{
    BulkString, RespArray, RespDouble, RespError, RespFrame, RespMap, RespNull, RespSet,
    SimpleError, SimpleString,
};

fn sample_frames() -> Vec<RespFrame> {
    vec![
        RespFrame::SimpleString(SimpleString::new(b"OK".to_vec())),
        RespFrame::SimpleError(SimpleError::new(b"ERR wrong".to_vec())),
        RespFrame::Integer(0),
        RespFrame::Integer(i64::MIN),
        RespFrame::Integer(i64::MAX),
        RespFrame::BulkString(BulkString::new(b"".to_vec())),
        RespFrame::BulkString(BulkString::new(b"with\r\ninside".to_vec())),
        RespFrame::NullBulkString(simple_redis::RespNullBulkString),
        RespFrame::NullArray(simple_redis::RespNullArray),
        RespFrame::Null(RespNull),
        RespFrame::Boolean(true),
        RespFrame::Boolean(false),
        RespFrame::Double(RespDouble::new(b"+1.23456e8".to_vec())),
        RespFrame::Array(RespArray::new(vec![])),
        RespFrame::SetFrame(RespSet::new(vec![])),
        RespFrame::MapFrame(RespMap::new()),
        {
            let mut m = RespMap::new();
            // inserted out of order: the map normalizes to sorted keys
            m.insert(b"zz".to_vec(), RespFrame::Integer(2));
            m.insert(b"aa".to_vec(), RespFrame::Integer(1));
            RespFrame::MapFrame(m)
        },
        RespFrame::SetFrame(RespSet::new(vec![
            RespFrame::Array(RespArray::new(vec![
                RespFrame::Integer(1234),
                RespFrame::Boolean(true),
            ])),
            RespFrame::BulkString(BulkString::new(b"world".to_vec())),
        ])),
    ]
}

#[test]
fn test_round_trip_all_samples() {
    for frame in sample_frames() {
        let encoded = frame.encode();
        let mut buf = BytesMut::new();
        buf.extend_from_slice(&encoded);
        let back = RespFrame::decode(&mut buf).unwrap();
        assert_eq!(back, frame);
        assert_eq!(buf.len(), 0);
    }
}

#[test]
fn test_incremental_decode_every_split() {
    for frame in sample_frames() {
        let encoded = frame.encode();
        for cut in 0..encoded.len() {
            let mut buf = BytesMut::new();
            buf.extend_from_slice(&encoded[..cut]);
            assert_eq!(
                RespFrame::decode(&mut buf).unwrap_err(),
                RespError::NotComplete
            );
            assert_eq!(&buf[..], &encoded[..cut]);
            buf.extend_from_slice(&encoded[cut..]);
            let back = RespFrame::decode(&mut buf).unwrap();
            assert_eq!(back, frame);
            assert_eq!(buf.len(), 0);
        }
    }
}

#[test]
fn test_pipelined_decode_in_order() {
    let frames = sample_frames();
    let mut buf = BytesMut::new();
    for frame in &frames {
        buf.extend_from_slice(&frame.encode());
    }
    for frame in &frames {
        let back = RespFrame::decode(&mut buf).unwrap();
        assert_eq!(&back, frame);
    }
    assert_eq!(buf.len(), 0);
}

#[test]
fn test_expect_length_matches_decode() {
    for frame in sample_frames() {
        let encoded = frame.encode();
        let mut with_rest = encoded.clone();
        with_rest.extend_from_slice(b"trailing");
        let n = RespFrame::expect_length(&with_rest).unwrap();
        assert_eq!(n, encoded.len());
        let mut buf = BytesMut::new();
        buf.extend_from_slice(&with_rest);
        RespFrame::decode(&mut buf).unwrap();
        assert_eq!(with_rest.len() - buf.len(), n);
    }
}

#[test]
fn test_empty_aggregates_round_trip() {
    for (wire, frame) in [
        (&b"*0\r\n"[..], RespFrame::Array(RespArray::new(vec![]))),
        (&b"%0\r\n"[..], RespFrame::MapFrame(RespMap::new())),
        (&b"~0\r\n"[..], RespFrame::SetFrame(RespSet::new(vec![]))),
    ] {
        let mut buf = BytesMut::new();
        buf.extend_from_slice(wire);
        let decoded = RespFrame::decode(&mut buf).unwrap();
        assert_eq!(decoded, frame);
        assert_eq!(decoded.encode(), wire.to_vec());
    }
}

#[test]
fn test_bulk_string_empty_and_embedded_crlf() {
    let empty = RespFrame::BulkString(BulkString::new(b"".to_vec()));
    assert_eq!(empty.encode(), b"$0\r\n\r\n".to_vec());
    let mut buf = BytesMut::from("$0\r\n\r\n");
    assert_eq!(RespFrame::decode(&mut buf).unwrap(), empty);

    let tricky = RespFrame::BulkString(BulkString::new(b"a\r\nb".to_vec()));
    let encoded = tricky.encode();
    assert_eq!(encoded, b"$4\r\na\r\nb\r\n".to_vec());
    let mut buf = BytesMut::new();
    buf.extend_from_slice(&encoded);
    assert_eq!(RespFrame::decode(&mut buf).unwrap(), tricky);
}

#[test]
fn test_integer_boundaries() {
    for (value, wire) in [
        (0i64, &b":0\r\n"[..]),
        (-7i64, &b":-7\r\n"[..]),
        (i64::MIN, &b":-9223372036854775808\r\n"[..]),
        (i64::MAX, &b":9223372036854775807\r\n"[..]),
    ] {
        let frame = RespFrame::Integer(value);
        assert_eq!(frame.encode(), wire.to_vec());
        let mut buf = BytesMut::new();
        buf.extend_from_slice(wire);
        assert_eq!(RespFrame::decode(&mut buf).unwrap(), frame);
    }
    // one past the i64 range is a parse error, not a frame
    let mut buf = BytesMut::from(":9223372036854775808\r\n");
    assert_eq!(RespFrame::decode(&mut buf).unwrap_err(), RespError::ParseIntError);
}

/// The textual body the server writes for a double.
fn double_body(x: f64) -> Vec<u8> {
    if x.abs() > 1e8 || x.abs() < 1e-8 {
        format!("{:+e}", x).into_bytes()
    } else {
        let sign = if x < 0.0 { "" } else { "+" };
        format!("{}{}", sign, x).into_bytes()
    }
}

#[test]
fn test_double_notation_switches_at_bounds() {
    // exactly 1e8 stays fixed; just above switches to scientific
    assert_eq!(double_body(1e8), b"+100000000".to_vec());
    assert_eq!(double_body(1.23456e8), b"+1.23456e8".to_vec());
    // exactly 1e-8 stays fixed; below switches to scientific
    assert_eq!(double_body(1e-8), b"+0.00000001".to_vec());
    assert_eq!(double_body(1e-9), b"+1e-9".to_vec());
    for x in [1e8, 1.23456e8, 1e-8, 1e-9, -123.456] {
        let frame = RespFrame::Double(RespDouble::new(double_body(x)));
        let encoded = frame.encode();
        let mut buf = BytesMut::new();
        buf.extend_from_slice(&encoded);
        let back = RespFrame::decode(&mut buf).unwrap();
        assert_eq!(back, frame);
    }
}

fn handle(backend: &mut Backend, wire: &[u8]) -> Vec<u8> {
    let mut codec = RespFrameCodec {};
    let mut buf = BytesMut::new();
    buf.extend_from_slice(wire);
    let frame = codec.decode(&mut buf).unwrap().unwrap();
    assert_eq!(buf.len(), 0);
    let response = simple_redis::network::request_handler(RedisRequest { frame }, backend);
    let mut out = BytesMut::new();
    codec.encode(response.frame, &mut out).unwrap();
    out.to_vec()
}

#[test]
fn test_scenario_set_then_get() {
    let mut backend = Backend::new();
    let reply = handle(&mut backend, b"*3\r\n$3\r\nSET\r\n$1\r\nk\r\n$1\r\nv\r\n");
    assert_eq!(reply, b"+OK\r\n".to_vec());
    let reply = handle(&mut backend, b"*2\r\n$3\r\nGET\r\n$1\r\nk\r\n");
    assert_eq!(reply, b"$1\r\nv\r\n".to_vec());
}

#[test]
fn test_scenario_get_miss() {
    let mut backend = Backend::new();
    let reply = handle(&mut backend, b"*2\r\n$3\r\nGET\r\n$4\r\nnope\r\n");
    assert_eq!(reply, b"_\r\n".to_vec());
}

#[test]
fn test_scenario_hset_twice_then_hgetall_sorted() {
    let mut backend = Backend::new();
    let reply = handle(
        &mut backend,
        b"*4\r\n$4\r\nHSET\r\n$3\r\nmap\r\n$5\r\nhello\r\n$5\r\nworld\r\n",
    );
    assert_eq!(reply, b"+OK\r\n".to_vec());
    let reply = handle(
        &mut backend,
        b"*4\r\n$4\r\nHSET\r\n$3\r\nmap\r\n$6\r\nhello1\r\n$6\r\nworld1\r\n",
    );
    assert_eq!(reply, b"+OK\r\n".to_vec());

    let cmd = HGetAll {
        key: b"map".to_vec(),
        sort: true,
    };
    let reply = cmd.execute(&mut backend).unwrap();
    assert_eq!(
        reply.encode(),
        b"*4\r\n$5\r\nhello\r\n$5\r\nworld\r\n$6\r\nhello1\r\n$6\r\nworld1\r\n".to_vec()
    );
}

#[test]
fn test_scenario_pipelined_fragmented_stream() {
    let mut codec = RespFrameCodec {};
    let mut buf = BytesMut::new();
    buf.extend_from_slice(b"*2\r\n$3\r\nSET\r\n");
    assert!(codec.decode(&mut buf).unwrap().is_none());
    buf.extend_from_slice(b"$5\r\nhello\r\n");
    let frame = codec.decode(&mut buf).unwrap().unwrap();
    assert_eq!(
        frame,
        RespFrame::Array(RespArray::new(vec![
            RespFrame::BulkString(BulkString::new(b"SET".to_vec())),
            RespFrame::BulkString(BulkString::new(b"hello".to_vec())),
        ]))
    );
    assert_eq!(buf.len(), 0);
}

#[test]
fn test_scenario_arity_error_keeps_store() {
    let mut backend = Backend::new();
    let reply = handle(&mut backend, b"*1\r\n$3\r\nSET\r\n");
    let text = String::from_utf8(reply).unwrap();
    assert!(text.starts_with('+'));
    assert!(text.contains("set"));
    assert!(text.contains("argument"));
    // the store still answers as before
    let reply = handle(&mut backend, b"*2\r\n$3\r\nGET\r\n$1\r\nk\r\n");
    assert_eq!(reply, b"_\r\n".to_vec());
}

#[test]
fn test_scenario_nested_aggregate_round_trip() {
    let frame = RespFrame::SetFrame(RespSet::new(vec![
        RespFrame::Array(RespArray::new(vec![
            RespFrame::Integer(1234),
            RespFrame::Boolean(true),
        ])),
        RespFrame::BulkString(BulkString::new(b"world".to_vec())),
    ]));
    let encoded = frame.encode();
    assert_eq!(encoded, b"~2\r\n*2\r\n:1234\r\n#t\r\n$5\r\nworld\r\n".to_vec());
    let mut buf = BytesMut::new();
    buf.extend_from_slice(&encoded);
    assert_eq!(RespFrame::decode(&mut buf).unwrap(), frame);
}

#[test]
fn test_find_crlf_and_helpers() {
    assert_eq!(find_crlf(b"ab\r\ncd\r\n", 1), Some(2));
    assert_eq!(find_crlf(b"ab\r\ncd\r\n", 2), Some(6));
    assert_eq!(find_crlf(b"ab\rcd", 1), None);
    assert_eq!(extract_simple_frame_data(b"+OK\r\n", b'+').unwrap(), 3);
    assert_eq!(parse_length(b"*12\r\nrest", b'*').unwrap(), (3, 12));
}

#[test]
fn test_calc_total_length_spans_children() {
    // "*2\r\n:1\r\n#t\r\n": header ends at 2, two children of four bytes each
    let buf = b"*2\r\n:1\r\n#t\r\n";
    assert_eq!(calc_total_length(buf, 2, 2, b'*').unwrap(), buf.len());
}

#[test]
fn test_utf8_checker_matches_std() {
    let cases: Vec<Vec<u8>> = vec![
        b"plain".to_vec(),
        "héllo wörld ✓".as_bytes().to_vec(),
        vec![0xff],
        vec![0xc0, 0xaf],
        vec![0xed, 0xa0, 0x80],
        vec![0xf4, 0x90, 0x80, 0x80],
        vec![0xe2, 0x82],
        vec![0xf0, 0x9f, 0x92, 0x96],
    ];
    for case in cases {
        assert_eq!(
            is_utf8_exec(case.as_slice()),
            std::str::from_utf8(case.as_slice()).is_ok(),
            "{:?}",
            case
        );
    }
}

#[test]
fn test_resp_error_reply_carries_the_error_text() {
    let reply = resp_error_reply(RespError::InvalidFrameType(b"expect (+)".to_vec()));
    assert_eq!(reply.encode(), b"+expect (+)\r\n".to_vec());
    let reply = resp_error_reply(RespError::ParseIntError);
    assert_eq!(reply.encode(), b"+bad frame\r\n".to_vec());
}

#[test]
fn test_rejected_command_reply_text() {
    let mut backend = Backend::new();
    // unknown verb: the fixed complaint comes back verbatim
    let reply = handle(&mut backend, b"*1\r\n$4\r\nding\r\n");
    assert_eq!(reply, b"+Invalid command\r\n".to_vec());
    // wrong arity: the verb and required count are named
    let reply = handle(&mut backend, b"*1\r\n$3\r\nSET\r\n");
    assert_eq!(reply, b"+set command must have exactly 2 argument\r\n".to_vec());
    // non-UTF-8 key: the fixed UTF-8 complaint
    let mut req = BytesMut::new();
    req.extend_from_slice(b"*2\r\n$3\r\nget\r\n$2\r\n\xff\xfe\r\n");
    let frame = RespFrameCodec {}.decode(&mut req).unwrap().unwrap();
    let response = simple_redis::network::request_handler(RedisRequest { frame }, &mut backend);
    assert_eq!(response.frame.encode(), b"+UTF8 error\r\n".to_vec());
}
