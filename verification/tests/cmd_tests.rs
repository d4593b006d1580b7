use bytes::BytesMut;

use simple_redis::backend::Backend;
use simple_redis::cmd::{
    extract_args, validate_command, Command, CommandError, CommandExecutor, Get, HGet, HGetAll,
    HSet, SetCmd,
};
use simple_redis::resp::decode::RespDecode;
use simple_redis::{BulkString, RespArray, RespFrame, RespNull, SimpleString};

fn ok_frame() -> RespFrame {
    RespFrame::SimpleString(SimpleString::new(b"OK".to_vec()))
}

#[test]
fn test_hget_from_resp_array() {
    let mut buf = BytesMut::new();
    buf.extend_from_slice(b"*3\r\n$4\r\nhget\r\n$4\r\nkey1\r\n$6\r\nfield1\r\n");
    let frame = RespArray::decode(&mut buf).unwrap();
    let result: HGet = HGet::try_from(frame).unwrap();
    assert_eq!(result.key, b"key1".to_vec());
    assert_eq!(result.field, b"field1".to_vec());
}

#[test]
fn test_hset_from_resp_array() {
    let mut buf = BytesMut::new();
    buf.extend_from_slice(b"*4\r\n$4\r\nhset\r\n$4\r\nkey1\r\n$6\r\nfield1\r\n$6\r\nvalue1\r\n");
    let frame = RespArray::decode(&mut buf).unwrap();
    let result: HSet = HSet::try_from(frame).unwrap();
    assert_eq!(result.key, b"key1".to_vec());
    assert_eq!(result.field, b"field1".to_vec());
    assert_eq!(
        result.value,
        RespFrame::BulkString(BulkString::new(b"value1".to_vec()))
    );
}

#[test]
fn test_hset_hget_hgetall_command() {
    let mut backend = Backend::new();
    let mut buf = BytesMut::new();
    buf.extend_from_slice(b"*4\r\n$4\r\nhset\r\n$3\r\nmap\r\n$5\r\nhello\r\n$5\r\nworld\r\n");
    let frame = RespArray::decode(&mut buf).unwrap();
    let cmd: HSet = HSet::try_from(frame).unwrap();
    let ret = cmd.execute(&mut backend);
    assert_eq!(ret.unwrap(), ok_frame());

    buf.extend_from_slice(b"*4\r\n$4\r\nhset\r\n$3\r\nmap\r\n$6\r\nhello1\r\n$6\r\nworld1\r\n");
    let frame = RespArray::decode(&mut buf).unwrap();
    let cmd: HSet = HSet::try_from(frame).unwrap();
    let ret = cmd.execute(&mut backend);
    assert_eq!(ret.unwrap(), ok_frame());

    buf.extend_from_slice(b"*3\r\n$4\r\nhget\r\n$3\r\nmap\r\n$6\r\nhello1\r\n");
    let frame = RespArray::decode(&mut buf).unwrap();
    let cmd: HGet = HGet::try_from(frame).unwrap();
    let ret = cmd.execute(&mut backend);
    assert_eq!(
        ret.unwrap(),
        RespFrame::BulkString(BulkString::new(b"world1".to_vec()))
    );

    let cmd = HGetAll {
        key: b"map".to_vec(),
        sort: true,
    };
    let ret = cmd.execute(&mut backend);
    assert_eq!(
        ret.unwrap(),
        RespFrame::Array(RespArray::new(vec![
            RespFrame::BulkString(BulkString::new(b"hello".to_vec())),
            RespFrame::BulkString(BulkString::new(b"world".to_vec())),
            RespFrame::BulkString(BulkString::new(b"hello1".to_vec())),
            RespFrame::BulkString(BulkString::new(b"world1".to_vec())),
        ]))
    );
}

#[test]
fn test_get_from_resp_array() {
    let mut buf = BytesMut::new();
    buf.extend_from_slice(b"*2\r\n$3\r\nGET\r\n$4\r\nnope\r\n");
    let frame = RespArray::decode(&mut buf).unwrap();
    let result: Get = Get::try_from(frame).unwrap();
    assert_eq!(result.key, b"nope".to_vec());
}

#[test]
fn test_set_from_resp_array() {
    let mut buf = BytesMut::new();
    buf.extend_from_slice(b"*3\r\n$3\r\nset\r\n$5\r\nhello\r\n$5\r\nworld\r\n");
    let frame = RespArray::decode(&mut buf).unwrap();
    let result: SetCmd = SetCmd::try_from(frame).unwrap();
    assert_eq!(result.key, b"hello".to_vec());
    assert_eq!(
        result.value,
        RespFrame::BulkString(BulkString::new(b"world".to_vec()))
    );
}

#[test]
fn test_set_then_get_command() {
    let mut backend = Backend::new();
    let cmd = SetCmd {
        key: b"k".to_vec(),
        value: RespFrame::BulkString(BulkString::new(b"v".to_vec())),
    };
    assert_eq!(cmd.execute(&mut backend).unwrap(), ok_frame());
    let cmd = Get { key: b"k".to_vec() };
    assert_eq!(
        cmd.execute(&mut backend).unwrap(),
        RespFrame::BulkString(BulkString::new(b"v".to_vec()))
    );
}

#[test]
fn test_get_miss_returns_null() {
    let mut backend = Backend::new();
    let cmd = Get {
        key: b"nope".to_vec(),
    };
    assert_eq!(cmd.execute(&mut backend).unwrap(), RespFrame::Null(RespNull));
}

#[test]
fn test_last_set_wins() {
    // many writes to one key, then one read: the value is the latest write
    let mut backend = Backend::new();
    for i in 0..5u8 {
        let cmd = SetCmd {
            key: b"k".to_vec(),
            value: RespFrame::Integer(i as i64),
        };
        cmd.execute(&mut backend).unwrap();
    }
    let cmd = Get { key: b"k".to_vec() };
    assert_eq!(cmd.execute(&mut backend).unwrap(), RespFrame::Integer(4));
}

#[test]
fn test_command_dispatch_unknown_verb() {
    let mut buf = BytesMut::new();
    buf.extend_from_slice(b"*1\r\n$4\r\nding\r\n");
    let frame = RespFrame::decode(&mut buf).unwrap();
    match Command::try_from(frame).unwrap_err() {
        CommandError::InvalidCommand(_) => {}
        other => panic!("{:?}", other),
    }
}

#[test]
fn test_command_arity_error() {
    let mut buf = BytesMut::new();
    buf.extend_from_slice(b"*1\r\n$3\r\nSET\r\n");
    let frame = RespArray::decode(&mut buf).unwrap();
    match SetCmd::try_from(frame).unwrap_err() {
        CommandError::InvalidArgument(msg) => {
            let text = String::from_utf8(msg).unwrap();
            assert_eq!(text, "set command must have exactly 2 argument");
        }
        other => panic!("{:?}", other),
    }
}

#[test]
fn test_command_key_must_be_utf8() {
    let arr = RespArray::new(vec![
        RespFrame::BulkString(BulkString::new(b"get".to_vec())),
        RespFrame::BulkString(BulkString::new(vec![0xff, 0xfe])),
    ]);
    match Get::try_from(arr).unwrap_err() {
        CommandError::Utf8Error => {}
        other => panic!("{:?}", other),
    }
}

#[test]
fn test_validate_command_checks_verb() {
    let arr = RespArray::new(vec![
        RespFrame::BulkString(BulkString::new(b"GeT".to_vec())),
        RespFrame::BulkString(BulkString::new(b"k".to_vec())),
    ]);
    let names = vec![b"get".to_vec()];
    assert!(validate_command(&arr, names.as_slice(), 1).is_ok());

    let names = vec![b"set".to_vec()];
    match validate_command(&arr, names.as_slice(), 1).unwrap_err() {
        CommandError::InvalidCommand(_) => {}
        other => panic!("{:?}", other),
    }
}

#[test]
fn test_extract_args_skips_the_verb() {
    let arr = RespArray::new(vec![
        RespFrame::BulkString(BulkString::new(b"get".to_vec())),
        RespFrame::Integer(7),
    ]);
    let args = extract_args(arr, 1).unwrap();
    assert_eq!(args, vec![RespFrame::Integer(7)]);
}
