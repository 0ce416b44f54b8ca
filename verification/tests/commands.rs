//! Command layer tests: parsing each command from its request array,
//! executing against a fresh store, and the command round trip on
//! concrete values.

use bytes::BytesMut;

use simple_redis::{
    Command, CommandError, Database, EchoArgs, GetArgs, HGetAllArgs, HGetArgs, HMGetArgs,
    HSetArgs, RespFrame, SAddArgs, SetArgs, SismemberArgs, TArray, TBulkString, TNull,
    TSimpleString,
};

fn bulk(s: &[u8]) -> RespFrame {
    RespFrame::BulkString(TBulkString::new(s.to_vec()))
}

fn decode_array(wire: &[u8]) -> TArray {
    let mut buf = BytesMut::new();
    buf.extend_from_slice(wire);
    TArray::decode(&mut buf).unwrap()
}

fn resp_ok() -> RespFrame {
    RespFrame::SimpleString(TSimpleString::new(b"OK".to_vec()))
}

#[test]
fn echo_test_echo() {
    let frame = decode_array(b"*2\r\n$4\r\necho\r\n$12\r\nHello World!\r\n");
    let result = EchoArgs::try_from(frame).unwrap();
    assert_eq!(result.val, b"Hello World!".to_vec());
}

#[test]
fn test_hget_from_resp_array() {
    let frame = decode_array(b"*3\r\n$4\r\nhget\r\n$3\r\nmap\r\n$5\r\nhello\r\n");
    let result = HGetArgs::try_from(frame).unwrap();
    assert_eq!(result.key, b"map".to_vec());
    assert_eq!(result.field, b"hello".to_vec());
}

#[test]
fn test_hgetall_from_resp_array() {
    let frame = decode_array(b"*2\r\n$7\r\nhgetall\r\n$3\r\nmap\r\n");
    let result = HGetAllArgs::try_from(frame).unwrap();
    assert_eq!(result.key, b"map".to_vec());
}

#[test]
fn test_hset_from_resp_array() {
    let frame = decode_array(b"*4\r\n$4\r\nhset\r\n$3\r\nmap\r\n$5\r\nhello\r\n$5\r\nworld\r\n");
    let result = HSetArgs::try_from(frame).unwrap();
    assert_eq!(result.key, b"map".to_vec());
    assert_eq!(result.field, b"hello".to_vec());
    assert_eq!(result.value, bulk(b"world"));
}

#[test]
fn test_hset_hget_hgetall_commands() {
    let backend = Database::new();
    let cmd = HSetArgs {
        key: b"map".to_vec(),
        field: b"hello".to_vec(),
        value: bulk(b"world"),
    };
    let result = cmd.execute(&backend);
    assert_eq!(result, resp_ok());

    let cmd = HSetArgs {
        key: b"map".to_vec(),
        field: b"hello1".to_vec(),
        value: bulk(b"world1"),
    };
    cmd.execute(&backend);

    let cmd = HGetArgs {
        key: b"map".to_vec(),
        field: b"hello".to_vec(),
    };
    let result = cmd.execute(&backend);
    assert_eq!(result, bulk(b"world"));

    let cmd = HGetAllArgs {
        key: b"map".to_vec(),
        sort: true,
    };
    let result = cmd.execute(&backend);

    let expected = TArray::new(vec![
        bulk(b"hello"),
        bulk(b"world"),
        bulk(b"hello1"),
        bulk(b"world1"),
    ]);
    assert_eq!(result, RespFrame::Array(expected));
}

#[test]
fn test_get_from_resp_array() {
    let frame = decode_array(b"*2\r\n$3\r\nget\r\n$5\r\nhello\r\n");
    let result = GetArgs::try_from(frame).unwrap();
    assert_eq!(result.key, b"hello".to_vec());
}

#[test]
fn test_set_from_resp_array() {
    let frame = decode_array(b"*3\r\n$3\r\nset\r\n$5\r\nhello\r\n$5\r\nworld\r\n");
    let result = SetArgs::try_from(frame).unwrap();
    assert_eq!(result.key, b"hello".to_vec());
    assert_eq!(result.value, bulk(b"world"));
}

#[test]
fn test_set_get_command() {
    let backend = Database::new();
    let cmd = SetArgs {
        key: b"hello".to_vec(),
        value: bulk(b"world"),
    };
    let result = cmd.execute(&backend);
    assert_eq!(result, resp_ok());

    let cmd = GetArgs {
        key: b"hello".to_vec(),
    };
    let result = cmd.execute(&backend);
    assert_eq!(result, bulk(b"world"));
}

#[test]
fn mget_test_echo() {
    let frame = decode_array(
        b"*5\r\n$5\r\nhmget\r\n$6\r\nmyhash\r\n$6\r\nfield1\r\n$6\r\nfield2\r\n$7\r\nnofield\r\n",
    );
    let result = HMGetArgs::try_from(frame).unwrap();
    assert_eq!(result.key, b"myhash".to_vec());
    assert_eq!(
        result.field,
        vec![b"field1".to_vec(), b"field2".to_vec(), b"nofield".to_vec()]
    );
}

#[test]
fn test_command() {
    let mut buf = BytesMut::new();
    buf.extend_from_slice(b"*2\r\n$3\r\nget\r\n$5\r\nhello\r\n");

    let frame = TArray::decode(&mut buf).unwrap();

    let cmd = Command::try_from(frame).unwrap();

    let backend = Database::new();

    let ret = cmd.execute(&backend);
    assert_eq!(ret, RespFrame::Null(TNull));
}

#[test]
fn set_test_echo() {
    let frame = decode_array(b"*3\r\n$4\r\nsadd\r\n$6\r\nmyhash\r\n$6\r\nfield1\r\n");
    let result = SAddArgs::try_from(frame).unwrap();
    assert_eq!(result.key, b"myhash".to_vec());
    assert_eq!(result.val, b"field1".to_vec());
}

// A command name matches on its ASCII-lowercased bytes.
#[test]
fn test_uppercase_name() {
    let frame = decode_array(b"*2\r\n$3\r\nGET\r\n$5\r\nhello\r\n");
    let cmd = Command::try_from(frame).unwrap();
    let backend = Database::new();
    assert_eq!(cmd.execute(&backend), RespFrame::Null(TNull));
}

// An unknown name is not an error: it replies UNKNOWN.
#[test]
fn test_unrecognized_command() {
    let frame = decode_array(b"*1\r\n$4\r\nnope\r\n");
    let cmd = Command::try_from(frame).unwrap();
    let backend = Database::new();
    assert_eq!(
        cmd.execute(&backend),
        RespFrame::SimpleString(TSimpleString::new(b"UNKNOWN".to_vec()))
    );
}

// Each command-layer error arises from a suitable request.
#[test]
fn test_command_errors() {
    // Not an array.
    let r = Command::from_frame(RespFrame::Integer(1));
    assert_eq!(r.unwrap_err(), CommandError::InvalidCommand);

    // First element is not a bulk string.
    let frame = TArray::new(vec![RespFrame::Integer(1)]);
    assert_eq!(
        Command::try_from(frame).unwrap_err(),
        CommandError::InvalidCommand
    );

    // Wrong arity.
    let frame = decode_array(b"*3\r\n$3\r\nget\r\n$1\r\na\r\n$1\r\nb\r\n");
    assert_eq!(
        Command::try_from(frame).unwrap_err(),
        CommandError::InvalidArgument
    );

    // A key must be well-formed UTF-8.
    let frame = TArray::new(vec![bulk(b"get"), bulk(&[0xff, 0xfe])]);
    assert_eq!(
        Command::try_from(frame).unwrap_err(),
        CommandError::Utf8Error
    );

    // A key must be a bulk string.
    let frame = TArray::new(vec![bulk(b"get"), RespFrame::Integer(3)]);
    assert_eq!(
        Command::try_from(frame).unwrap_err(),
        CommandError::InvalidArgument
    );
}

// Converting a recognized command to its request form and re-parsing
// yields an equal command.
#[test]
fn test_command_round_trip() {
    let commands = vec![
        Command::Get(GetArgs { key: b"k".to_vec() }),
        Command::SetCmd(SetArgs {
            key: b"k".to_vec(),
            value: bulk(b"v"),
        }),
        Command::HGet(HGetArgs {
            key: b"k".to_vec(),
            field: b"f".to_vec(),
        }),
        Command::HSet(HSetArgs {
            key: b"k".to_vec(),
            field: b"f".to_vec(),
            value: RespFrame::Integer(5),
        }),
        Command::HGetAll(HGetAllArgs {
            key: b"k".to_vec(),
            sort: false,
        }),
        Command::Echo(EchoArgs {
            val: b"hey".to_vec(),
        }),
        Command::HMGet(HMGetArgs {
            key: b"k".to_vec(),
            field: vec![b"f1".to_vec(), b"f2".to_vec()],
        }),
        Command::SAdd(SAddArgs {
            key: b"k".to_vec(),
            val: b"m".to_vec(),
        }),
        Command::Sismember(SismemberArgs {
            key: b"k".to_vec(),
            val: b"m".to_vec(),
        }),
    ];
    for cmd in commands {
        let array = cmd.clone().into_array();
        let reparsed = Command::try_from(array).unwrap();
        assert_eq!(reparsed, cmd);
    }
}
