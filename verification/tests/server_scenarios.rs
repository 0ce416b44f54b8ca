//! End-to-end scenarios over literal wire bytes: requests are decoded
//! from the buffer, converted to commands, executed against a shared
//! store, and the replies re-encoded.

use bytes::BytesMut;

use simple_redis::{decode_step, encode_step, Command, Database, RespFrame};

/// Feed request bytes through the full pipeline and return the reply
/// bytes.
fn round_trip(db: &Database, wire: &[u8]) -> Vec<u8> {
    let mut buf = BytesMut::new();
    buf.extend_from_slice(wire);
    let frame = decode_step(&mut buf).unwrap().unwrap();
    assert_eq!(buf.len(), 0);
    let cmd = Command::from_frame(frame).unwrap();
    let reply = cmd.execute(db);
    let mut out = BytesMut::new();
    encode_step(&reply, &mut out);
    out.to_vec()
}

#[test]
fn scenario_set_then_get() {
    let db = Database::new();
    let reply = round_trip(&db, b"*3\r\n$3\r\nset\r\n$5\r\nhello\r\n$5\r\nworld\r\n");
    assert_eq!(reply, b"+OK\r\n");
    let reply = round_trip(&db, b"*2\r\n$3\r\nget\r\n$5\r\nhello\r\n");
    assert_eq!(reply, b"$5\r\nworld\r\n");
}

#[test]
fn scenario_get_missing_key() {
    let db = Database::new();
    let reply = round_trip(&db, b"*2\r\n$3\r\nget\r\n$5\r\nhello\r\n");
    assert_eq!(reply, b"_\r\n");
}

#[test]
fn scenario_echo() {
    let db = Database::new();
    let reply = round_trip(&db, b"*2\r\n$4\r\necho\r\n$12\r\nHello World!\r\n");
    assert_eq!(reply, b"$12\r\nHello World!\r\n");
}

#[test]
fn scenario_hset_hgetall_sorted() {
    let db = Database::new();
    let reply = round_trip(&db, b"*4\r\n$4\r\nhset\r\n$3\r\nmap\r\n$5\r\nhello\r\n$5\r\nworld\r\n");
    assert_eq!(reply, b"+OK\r\n");
    let reply = round_trip(
        &db,
        b"*4\r\n$4\r\nhset\r\n$3\r\nmap\r\n$6\r\nhello1\r\n$6\r\nworld1\r\n",
    );
    assert_eq!(reply, b"+OK\r\n");

    // The command layer sorts fields when the flag is set at
    // construction.
    let mut buf = BytesMut::new();
    buf.extend_from_slice(b"*2\r\n$7\r\nhgetall\r\n$3\r\nmap\r\n");
    let frame = decode_step(&mut buf).unwrap().unwrap();
    let cmd = Command::from_frame(frame).unwrap();
    let cmd = match cmd {
        Command::HGetAll(mut a) => {
            a.sort = true;
            Command::HGetAll(a)
        },
        other => other,
    };
    let reply = cmd.execute(&db);
    let mut out = BytesMut::new();
    encode_step(&reply, &mut out);
    assert_eq!(
        out.to_vec(),
        b"*4\r\n$5\r\nhello\r\n$5\r\nworld\r\n$6\r\nhello1\r\n$6\r\nworld1\r\n"
    );
}

#[test]
fn scenario_hmget_missing_field() {
    let db = Database::new();
    round_trip(&db, b"*4\r\n$4\r\nhset\r\n$6\r\nmyhash\r\n$6\r\nfield1\r\n$2\r\nv1\r\n");
    round_trip(&db, b"*4\r\n$4\r\nhset\r\n$6\r\nmyhash\r\n$6\r\nfield2\r\n$2\r\nv2\r\n");
    let reply = round_trip(
        &db,
        b"*5\r\n$5\r\nhmget\r\n$6\r\nmyhash\r\n$6\r\nfield1\r\n$6\r\nfield2\r\n$7\r\nnofield\r\n",
    );
    assert_eq!(reply, b"*3\r\n$2\r\nv1\r\n$2\r\nv2\r\n$-1\r\n");
}

#[test]
fn scenario_partial_read() {
    let mut buf = BytesMut::new();
    buf.extend_from_slice(b"*2\r\n$3\r\nset\r\n");
    assert_eq!(decode_step(&mut buf).unwrap(), None);
    assert_eq!(buf.len(), 13);

    buf.extend_from_slice(b"$5\r\nhello\r\n");
    let frame = decode_step(&mut buf).unwrap().unwrap();
    match frame {
        RespFrame::Array(a) => assert_eq!(a.0.len(), 2),
        _ => panic!("expected an array"),
    }
    assert_eq!(buf.len(), 0);
}

#[test]
fn scenario_sadd_sismember() {
    let db = Database::new();
    let reply = round_trip(&db, b"*3\r\n$4\r\nsadd\r\n$4\r\nkeys\r\n$3\r\nfoo\r\n");
    assert_eq!(reply, b":1\r\n");
    let reply = round_trip(&db, b"*3\r\n$9\r\nsismember\r\n$4\r\nkeys\r\n$3\r\nfoo\r\n");
    assert_eq!(reply, b":1\r\n");
    let reply = round_trip(&db, b"*3\r\n$9\r\nsismember\r\n$4\r\nkeys\r\n$3\r\nbar\r\n");
    assert_eq!(reply, b":0\r\n");
    let reply = round_trip(&db, b"*3\r\n$9\r\nsismember\r\n$4\r\nnope\r\n$3\r\nfoo\r\n");
    assert_eq!(reply, b"_\r\n");
}
