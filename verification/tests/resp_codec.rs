//! Frame codec tests: one encode and one decode test per variant, the
//! partial-read behavior, and concrete checks of the codec laws.

use bytes::{BufMut, BytesMut};

use simple_redis::{
    decode_step, encode_step, RespError, RespFrame, TArray, TBulkString, TDouble, TError, TMap,
    TNull, TNullArray, TSet, TSimpleString,
};

fn bulk(s: &[u8]) -> RespFrame {
    RespFrame::BulkString(TBulkString::new(s.to_vec()))
}

#[test]
fn test_simple_string_encode() {
    let frame: RespFrame = RespFrame::SimpleString(TSimpleString::new(b"OK".to_vec()));
    assert_eq!(frame.encode(), b"+OK\r\n");
}

#[test]
fn test_simple_string_decode() {
    let mut buf = BytesMut::new();
    buf.extend_from_slice(b"+OK\r\n");

    let frame = TSimpleString::decode(&mut buf).unwrap();
    assert_eq!(frame, TSimpleString::new(b"OK".to_vec()));

    buf.extend_from_slice(b"+hello\r");

    let ret = TSimpleString::decode(&mut buf);
    assert_eq!(ret.unwrap_err(), RespError::NotCompleteFrame);

    buf.put_u8(b'\n');
    let frame = TSimpleString::decode(&mut buf).unwrap();
    assert_eq!(frame, TSimpleString::new(b"hello".to_vec()));
}

#[test]
fn test_error_encode() {
    let frame: RespFrame = RespFrame::Error(TError::new(b"Error message".to_vec()));
    assert_eq!(frame.encode(), b"-Error message\r\n");
}

#[test]
fn test_simple_error_decode() {
    let mut buf = BytesMut::new();
    buf.extend_from_slice(b"-Error message\r\n");

    let frame = TError::decode(&mut buf).unwrap();
    assert_eq!(frame, TError::new(b"Error message".to_vec()));
}

#[test]
fn test_null_encode() {
    let frame: RespFrame = RespFrame::Null(TNull);
    assert_eq!(frame.encode(), b"_\r\n");
}

#[test]
fn test_null_decode() {
    let mut buf = BytesMut::new();
    buf.extend_from_slice(b"_\r\n");

    let frame = TNull::decode(&mut buf).unwrap();
    assert_eq!(frame, TNull);
}

#[test]
fn test_boolean_encode() {
    let frame: RespFrame = RespFrame::Boolean(true);
    assert_eq!(frame.encode(), b"#t\r\n");

    let frame: RespFrame = RespFrame::Boolean(false);
    assert_eq!(frame.encode(), b"#f\r\n");
}

#[test]
fn test_boolean_decode() {
    let mut buf = BytesMut::new();
    buf.extend_from_slice(b"#t\r\n");

    let frame = simple_redis::resp::boolean::decode(&mut buf).unwrap();
    assert!(frame);

    buf.extend_from_slice(b"#f\r\n");

    let frame = simple_redis::resp::boolean::decode(&mut buf).unwrap();
    assert!(!frame);

    buf.extend_from_slice(b"#f");
    assert!(simple_redis::resp::boolean::decode(&mut buf).is_err());
}

#[test]
fn test_bulk_string_encode() {
    let frame: RespFrame = bulk(b"hello");
    assert_eq!(frame.encode(), b"$5\r\nhello\r\n");
}

#[test]
fn test_null_bulk_string_encode() {
    let frame: RespFrame = RespFrame::NullBulkString;
    assert_eq!(frame.encode(), b"$-1\r\n");
}

#[test]
fn test_bulk_string_decode() {
    let mut buf = BytesMut::new();
    buf.extend_from_slice(b"$5\r\nhello\r\n");

    let frame = TBulkString::decode(&mut buf).unwrap();
    assert_eq!(frame, TBulkString::new(b"hello".to_vec()));

    buf.extend_from_slice(b"$5\r\nhello");
    let ret = TBulkString::decode(&mut buf);
    assert_eq!(ret.unwrap_err(), RespError::NotCompleteFrame);

    buf.extend_from_slice(b"\r\n");
    let frame = TBulkString::decode(&mut buf).unwrap();
    assert_eq!(frame, TBulkString::new(b"hello".to_vec()));
}

#[test]
fn test_null_bulk_string_decode() {
    let mut buf = BytesMut::new();
    buf.extend_from_slice(b"$-1\r\n");

    let frame = RespFrame::decode(&mut buf).unwrap();
    assert_eq!(frame, RespFrame::NullBulkString);
    assert_eq!(buf.len(), 0);
}

#[test]
fn test_array_encode() {
    let frame: RespFrame = RespFrame::Array(TArray::new(vec![
        bulk(b"set"),
        bulk(b"hello"),
        bulk(b"world"),
    ]));
    assert_eq!(
        &frame.encode(),
        b"*3\r\n$3\r\nset\r\n$5\r\nhello\r\n$5\r\nworld\r\n"
    );
}

#[test]
fn test_null_array_encode() {
    let frame: RespFrame = RespFrame::NullArray(TNullArray);
    assert_eq!(frame.encode(), b"*-1\r\n");
}

#[test]
fn test_null_array_decode() {
    let mut buf = BytesMut::new();
    buf.extend_from_slice(b"*-1\r\n");

    let frame = TNullArray::decode(&mut buf).unwrap();
    assert_eq!(frame, TNullArray);
}

#[test]
fn test_array_decode() {
    let mut buf = BytesMut::new();
    buf.extend_from_slice(b"*2\r\n$3\r\nset\r\n$5\r\nhello\r\n");

    let frame = TArray::decode(&mut buf).unwrap();
    assert_eq!(frame, TArray::new(vec![bulk(b"set"), bulk(b"hello")]));

    buf.extend_from_slice(b"*2\r\n$3\r\nset\r\n");
    let ret = TArray::decode(&mut buf);
    assert_eq!(ret.unwrap_err(), RespError::NotCompleteFrame);

    buf.extend_from_slice(b"$5\r\nhello\r\n");
    let frame = TArray::decode(&mut buf).unwrap();
    assert_eq!(frame, TArray::new(vec![bulk(b"set"), bulk(b"hello")]));
}

#[test]
fn test_map_encode() {
    let mut map = TMap::new();
    map.insert(b"hello".to_vec(), bulk(b"world"));
    map.insert(
        b"foo".to_vec(),
        RespFrame::Double(TDouble::new(b"-123456.789".to_vec()).unwrap()),
    );

    let frame: RespFrame = RespFrame::MapFrame(map);
    assert_eq!(
        &frame.encode(),
        b"%2\r\n+foo\r\n,-123456.789\r\n+hello\r\n$5\r\nworld\r\n"
    );
}

#[test]
fn test_map_decode() {
    let mut buf = BytesMut::new();
    buf.extend_from_slice(b"%2\r\n+hello\r\n$5\r\nworld\r\n+foo\r\n$3\r\nbar\r\n");

    let frame = TMap::decode(&mut buf).unwrap();
    let mut map = TMap::new();
    map.insert(b"hello".to_vec(), bulk(b"world"));
    map.insert(b"foo".to_vec(), bulk(b"bar"));
    assert_eq!(frame, map);
}

#[test]
fn test_set_encode() {
    let frame: RespFrame = RespFrame::SetFrame(TSet::new(vec![
        RespFrame::Array(TArray::new(vec![
            RespFrame::Integer(1234),
            RespFrame::Boolean(true),
        ])),
        bulk(b"world"),
    ]));
    assert_eq!(frame.encode(), b"~2\r\n*2\r\n:1234\r\n#t\r\n$5\r\nworld\r\n");
}

#[test]
fn test_set_decode() {
    let mut buf = BytesMut::new();
    buf.extend_from_slice(b"~2\r\n$3\r\nset\r\n$5\r\nhello\r\n");

    let frame = TSet::decode(&mut buf).unwrap();
    assert_eq!(frame, TSet::new(vec![bulk(b"set"), bulk(b"hello")]));
}

#[test]
fn test_integer_round_trip() {
    for v in [0i64, 1, -1, 42, -123, i64::MAX, i64::MIN] {
        let mut buf = BytesMut::new();
        buf.extend_from_slice(&RespFrame::Integer(v).encode());
        assert_eq!(RespFrame::decode(&mut buf).unwrap(), RespFrame::Integer(v));
        assert_eq!(buf.len(), 0);
    }
}

#[test]
fn test_double_decode() {
    let mut buf = BytesMut::new();
    buf.extend_from_slice(b",3.25e-2\r\n");
    let frame = TDouble::decode(&mut buf).unwrap();
    assert_eq!(frame, TDouble::new(b"3.25e-2".to_vec()).unwrap());

    buf.extend_from_slice(b",nonsense\r\n");
    assert_eq!(
        TDouble::decode(&mut buf).unwrap_err(),
        RespError::ParseFloatError
    );
}

// A nested frame survives an encode/decode round trip and leaves the
// buffer empty.
#[test]
fn test_nested_round_trip() {
    let frame = RespFrame::Array(TArray::new(vec![
        RespFrame::SimpleString(TSimpleString::new(b"hi".to_vec())),
        RespFrame::Integer(-7),
        RespFrame::NullBulkString,
        RespFrame::SetFrame(TSet::new(vec![RespFrame::Boolean(false), bulk(b"x")])),
        RespFrame::Null(TNull),
    ]));
    let encoded = frame.encode();
    let mut buf = BytesMut::new();
    buf.extend_from_slice(&encoded);
    assert_eq!(RespFrame::decode(&mut buf).unwrap(), frame);
    assert_eq!(buf.len(), 0);
}

// Every strict prefix of an encoding is incomplete, and never consumes.
#[test]
fn test_incremental_decoding() {
    let frame = RespFrame::Array(TArray::new(vec![bulk(b"set"), bulk(b"hello")]));
    let encoded = frame.encode();
    for cut in 0..encoded.len() {
        let mut buf = BytesMut::new();
        buf.extend_from_slice(&encoded[..cut]);
        assert_eq!(
            RespFrame::decode(&mut buf).unwrap_err(),
            RespError::NotCompleteFrame
        );
        assert_eq!(buf.len(), cut);
        buf.extend_from_slice(&encoded[cut..]);
        assert_eq!(RespFrame::decode(&mut buf).unwrap(), frame);
        assert_eq!(buf.len(), 0);
    }
}

// A pipeline of frames decodes frame by frame, in order.
#[test]
fn test_pipeline() {
    let frames = vec![
        RespFrame::SimpleString(TSimpleString::new(b"one".to_vec())),
        RespFrame::Integer(2),
        RespFrame::Array(TArray::new(vec![bulk(b"three")])),
    ];
    let mut buf = BytesMut::new();
    for f in &frames {
        encode_step(f, &mut buf);
    }
    for f in &frames {
        let got = decode_step(&mut buf).unwrap().unwrap();
        assert_eq!(&got, f);
    }
    assert_eq!(buf.len(), 0);
    assert_eq!(decode_step(&mut buf).unwrap(), None);
}

// The length predictor returns the exact encoded length for a canonical
// frame of every prefix.
#[test]
fn test_expect_length_exact() {
    let frames = vec![
        RespFrame::SimpleString(TSimpleString::new(b"a".to_vec())),
        RespFrame::Error(TError::new(b"e".to_vec())),
        RespFrame::Integer(-12),
        bulk(b"xyz"),
        RespFrame::Array(TArray::new(vec![bulk(b"q")])),
        RespFrame::Null(TNull),
        RespFrame::Boolean(true),
        RespFrame::Double(TDouble::new(b"1.5".to_vec()).unwrap()),
        RespFrame::SetFrame(TSet::new(vec![RespFrame::Integer(9)])),
        RespFrame::NullBulkString,
        RespFrame::NullArray(TNullArray),
    ];
    let mut map = TMap::new();
    map.insert(b"k".to_vec(), RespFrame::Integer(1));
    let mut frames = frames;
    frames.push(RespFrame::MapFrame(map));
    for f in frames {
        let encoded = f.encode();
        assert_eq!(RespFrame::expect_length(&encoded).unwrap(), encoded.len());
    }
}

// Two maps holding the same entries, inserted in different orders,
// encode identically.
#[test]
fn test_map_canonical_encoding() {
    let mut m1 = TMap::new();
    m1.insert(b"b".to_vec(), RespFrame::Integer(2));
    m1.insert(b"a".to_vec(), RespFrame::Integer(1));
    let mut m2 = TMap::new();
    m2.insert(b"a".to_vec(), RespFrame::Integer(1));
    m2.insert(b"b".to_vec(), RespFrame::Integer(2));
    assert_eq!(
        RespFrame::MapFrame(m1).encode(),
        RespFrame::MapFrame(m2).encode()
    );
}

// Each fatal decode error arises from a suitable input.
#[test]
fn test_decode_errors() {
    let mut buf = BytesMut::new();
    buf.extend_from_slice(b"&oops\r\n");
    assert_eq!(
        RespFrame::decode(&mut buf).unwrap_err(),
        RespError::InvalidFrameType
    );

    let mut buf = BytesMut::new();
    buf.extend_from_slice(b"$abc\r\nxxxxx\r\n");
    assert_eq!(
        RespFrame::decode(&mut buf).unwrap_err(),
        RespError::InvalidFrameLength
    );

    let mut buf = BytesMut::new();
    buf.extend_from_slice(b"#x\r\n");
    assert_eq!(
        RespFrame::decode(&mut buf).unwrap_err(),
        RespError::InvalidFrameData
    );

    let mut buf = BytesMut::new();
    buf.extend_from_slice(b":12a\r\n");
    assert_eq!(
        RespFrame::decode(&mut buf).unwrap_err(),
        RespError::ParseIntError
    );

    let mut buf = BytesMut::new();
    buf.extend_from_slice(b",zz\r\n");
    assert_eq!(
        RespFrame::decode(&mut buf).unwrap_err(),
        RespError::ParseFloatError
    );

    let mut buf = BytesMut::new();
    assert_eq!(
        RespFrame::decode(&mut buf).unwrap_err(),
        RespError::NotCompleteFrame
    );
}
