use pgoutput_decode::messages::{
    DecodeError, LogicalReplicationMessage, TupleFlag, PG_EPOCH_UNIX_MICROS,
};
use pgoutput_decode::parse::parse;
use pgoutput_decode::reader::Decoder;

fn push_u16(buf: &mut Vec<u8>, v: u16) {
    buf.extend_from_slice(&v.to_be_bytes());
}

fn push_u32(buf: &mut Vec<u8>, v: u32) {
    buf.extend_from_slice(&v.to_be_bytes());
}

fn push_u64(buf: &mut Vec<u8>, v: u64) {
    buf.extend_from_slice(&v.to_be_bytes());
}

fn push_string(buf: &mut Vec<u8>, s: &str) {
    buf.extend_from_slice(s.as_bytes());
    buf.push(0);
}

#[test]
fn begin_scenario() {
    let mut buf = vec![b'B'];
    push_u64(&mut buf, 1000);
    push_u64(&mut buf, 0);
    push_u32(&mut buf, 42);
    match parse(&buf) {
        Ok(LogicalReplicationMessage::Begin(b)) => {
            assert_eq!(b.lsn, 1000);
            assert_eq!(b.timestamp.microseconds, 0);
            assert_eq!(b.xid, 42);
        }
        _ => panic!("expected Begin"),
    }
}

#[test]
fn begin_negative_xid() {
    let mut buf = vec![b'B'];
    push_u64(&mut buf, 7);
    push_u64(&mut buf, 9);
    push_u32(&mut buf, 0xFFFF_FFFF);
    match parse(&buf) {
        Ok(LogicalReplicationMessage::Begin(b)) => assert_eq!(b.xid, -1),
        _ => panic!("expected Begin"),
    }
}

#[test]
fn commit_roundtrip() {
    let mut buf = vec![b'C'];
    buf.push(1);
    push_u64(&mut buf, 0x0102030405060708);
    push_u64(&mut buf, 0x1112131415161718);
    push_u64(&mut buf, 654321);
    match parse(&buf) {
        Ok(LogicalReplicationMessage::Commit(c)) => {
            assert_eq!(c.flags, 1);
            assert_eq!(c.lsn, 0x0102030405060708);
            assert_eq!(c.transaction_lsn, 0x1112131415161718);
            assert_eq!(c.timestamp.microseconds, 654321);
        }
        _ => panic!("expected Commit"),
    }
}

#[test]
fn origin_roundtrip() {
    let mut buf = vec![b'O'];
    push_u64(&mut buf, 55);
    push_string(&mut buf, "replica_a");
    match parse(&buf) {
        Ok(LogicalReplicationMessage::Origin(o)) => {
            assert_eq!(o.lsn, 55);
            assert_eq!(o.name, "replica_a");
        }
        _ => panic!("expected Origin"),
    }
}

#[test]
fn relation_roundtrip() {
    let mut buf = vec![b'R'];
    push_u32(&mut buf, 16394);
    push_string(&mut buf, "public");
    push_string(&mut buf, "ticket_state");
    buf.push(b'd');
    push_u16(&mut buf, 2);
    buf.push(1);
    push_string(&mut buf, "id");
    push_u32(&mut buf, 23);
    push_u32(&mut buf, 0xFFFF_FFFF);
    buf.push(0);
    push_string(&mut buf, "state");
    push_u32(&mut buf, 25);
    push_u32(&mut buf, 7);
    match parse(&buf) {
        Ok(LogicalReplicationMessage::Relation(r)) => {
            assert_eq!(r.id, 16394);
            assert_eq!(r.namespace, "public");
            assert_eq!(r.name, "ticket_state");
            assert_eq!(r.replica, b'd');
            assert_eq!(r.columns.len(), 2);
            assert!(r.columns[0].key);
            assert_eq!(r.columns[0].name, "id");
            assert_eq!(r.columns[0].pg_type, 23);
            assert_eq!(r.columns[0].mode, 0xFFFF_FFFF);
            assert!(!r.columns[1].key);
            assert_eq!(r.columns[1].name, "state");
            assert_eq!(r.columns[1].pg_type, 25);
            assert_eq!(r.columns[1].mode, 7);
        }
        _ => panic!("expected Relation"),
    }
}

#[test]
fn type_roundtrip() {
    let mut buf = vec![b'Y'];
    push_u32(&mut buf, 600);
    push_string(&mut buf, "pg_catalog");
    push_string(&mut buf, "numeric");
    match parse(&buf) {
        Ok(LogicalReplicationMessage::Type(t)) => {
            assert_eq!(t.id, 600);
            assert_eq!(t.namespace, "pg_catalog");
            assert_eq!(t.name, "numeric");
        }
        _ => panic!("expected Type"),
    }
}

#[test]
fn insert_scenario() {
    let mut buf = vec![b'I'];
    push_u32(&mut buf, 3);
    buf.push(1);
    push_u16(&mut buf, 1);
    buf.push(b't');
    push_u32(&mut buf, 5);
    buf.extend_from_slice(b"hello");
    match parse(&buf) {
        Ok(LogicalReplicationMessage::Insert(i)) => {
            assert_eq!(i.relation_id, 3);
            assert!(i.new);
            assert_eq!(i.row.len(), 1);
            assert_eq!(i.row[0].flag, TupleFlag::Text);
            assert_eq!(i.row[0].value.as_deref(), Some(b"hello".as_slice()));
        }
        _ => panic!("expected Insert"),
    }
}

#[test]
fn update_without_markers() {
    let mut buf = vec![b'U'];
    push_u32(&mut buf, 9);
    buf.push(1);
    push_u16(&mut buf, 2);
    buf.push(b'n');
    buf.push(b'u');
    match parse(&buf) {
        Ok(LogicalReplicationMessage::Update(u)) => {
            assert_eq!(u.relation_id, 9);
            assert!(!u.key);
            assert!(!u.old);
            assert!(u.new);
            assert!(u.old_row.is_none());
            assert_eq!(u.row.len(), 2);
            assert_eq!(u.row[0].flag, TupleFlag::Null);
            assert_eq!(u.row[0].value, None);
            assert_eq!(u.row[1].flag, TupleFlag::UnchangedToast);
            assert_eq!(u.row[1].value, None);
        }
        _ => panic!("expected Update"),
    }
}

#[test]
fn update_retains_old_row() {
    let mut buf = vec![b'U'];
    push_u32(&mut buf, 9);
    buf.push(b'K');
    push_u16(&mut buf, 1);
    buf.push(b't');
    push_u32(&mut buf, 3);
    buf.extend_from_slice(b"old");
    buf.push(1);
    push_u16(&mut buf, 1);
    buf.push(b't');
    push_u32(&mut buf, 3);
    buf.extend_from_slice(b"new");
    match parse(&buf) {
        Ok(LogicalReplicationMessage::Update(u)) => {
            assert!(u.key);
            assert!(!u.old);
            assert!(u.new);
            let old_row = u.old_row.expect("pre-image row must be retained");
            assert_eq!(old_row.len(), 1);
            assert_eq!(old_row[0].value.as_deref(), Some(b"old".as_slice()));
            assert_eq!(u.row[0].value.as_deref(), Some(b"new".as_slice()));
        }
        _ => panic!("expected Update"),
    }
}

#[test]
fn delete_scenario() {
    let mut buf = vec![b'D'];
    push_u32(&mut buf, 7);
    push_u16(&mut buf, 0);
    match parse(&buf) {
        Ok(LogicalReplicationMessage::Delete(d)) => {
            assert_eq!(d.relation_id, 7);
            assert!(!d.key);
            assert!(!d.old);
            assert!(d.row.is_empty());
        }
        _ => panic!("expected Delete"),
    }
}

#[test]
fn delete_with_key_marker() {
    let mut buf = vec![b'D'];
    push_u32(&mut buf, 7);
    buf.push(b'K');
    push_u16(&mut buf, 1);
    buf.push(b'n');
    match parse(&buf) {
        Ok(LogicalReplicationMessage::Delete(d)) => {
            assert!(d.key);
            assert!(!d.old);
            assert_eq!(d.row.len(), 1);
            assert_eq!(d.row[0].flag, TupleFlag::Null);
        }
        _ => panic!("expected Delete"),
    }
}

#[test]
fn timestamp_zero_is_epoch() {
    let mut d = Decoder::new(&[0, 0, 0, 0, 0, 0, 0, 0]);
    let t = d.get_timestamp().unwrap();
    assert_eq!(t.microseconds, 0);
    assert_eq!(PG_EPOCH_UNIX_MICROS, 946_684_800_000_000);
}

#[test]
fn timestamp_offset_is_exact() {
    let micros: u64 = 1_234_567_890_123_456;
    let mut d = Decoder::new(&micros.to_be_bytes());
    let t = d.get_timestamp().unwrap();
    assert_eq!(t.microseconds, micros);
}

#[test]
fn tuple_row_zero_count_is_empty() {
    let mut d = Decoder::new(&[0, 0]);
    let row = d.get_tupledata().unwrap();
    assert!(row.is_empty());
    assert_eq!(d.cursor(), 2);
}

#[test]
fn tuple_row_unknown_flag_stops_after_flag() {
    let mut d = Decoder::new(&[0, 1, b'x', 9, 9, 9]);
    let r = d.get_tupledata();
    assert_eq!(r.err(), Some(DecodeError::UnknownTupleFlag(b'x')));
    assert_eq!(d.cursor(), 3);
}

#[test]
fn row_marker_present() {
    let mut d = Decoder::new(&[b'K', 1]);
    assert_eq!(d.get_rowinfo('K'), Ok(true));
    assert_eq!(d.cursor(), 1);
}

#[test]
fn row_marker_absent_leaves_cursor() {
    let mut d = Decoder::new(&[b'O', 1]);
    assert_eq!(d.get_rowinfo('K'), Ok(false));
    assert_eq!(d.cursor(), 0);
}

#[test]
fn row_marker_empty_buffer_is_error() {
    let mut d = Decoder::new(&[]);
    assert_eq!(d.get_rowinfo('K'), Err(DecodeError::Truncated));
}

#[test]
fn truncated_relation_fails() {
    let mut buf = vec![b'R'];
    push_u32(&mut buf, 1);
    buf.extend_from_slice(b"public");
    assert_eq!(parse(&buf).err(), Some(DecodeError::Truncated));
}

#[test]
fn truncated_fixed_field_fails() {
    let buf = [b'B', 0, 0, 1];
    assert_eq!(parse(&buf).err(), Some(DecodeError::Truncated));
}

#[test]
fn truncated_tuple_value_fails() {
    let mut buf = vec![b'I'];
    push_u32(&mut buf, 3);
    buf.push(1);
    push_u16(&mut buf, 1);
    buf.push(b't');
    push_u32(&mut buf, 10);
    buf.extend_from_slice(b"short");
    assert_eq!(parse(&buf).err(), Some(DecodeError::Truncated));
}

#[test]
fn malformed_utf8_fails() {
    let mut buf = vec![b'O'];
    push_u64(&mut buf, 1);
    buf.extend_from_slice(&[0xFF, 0xFE]);
    buf.push(0);
    assert_eq!(parse(&buf).err(), Some(DecodeError::MalformedText));
}

#[test]
fn multibyte_string_decodes() {
    let mut buf = vec![b'O'];
    push_u64(&mut buf, 2);
    push_string(&mut buf, "r\u{e9}plica_\u{4e16}");
    match parse(&buf) {
        Ok(LogicalReplicationMessage::Origin(o)) => {
            assert_eq!(o.name, "r\u{e9}plica_\u{4e16}");
        }
        _ => panic!("expected Origin"),
    }
}

#[test]
fn unknown_tag_fails_with_byte() {
    assert_eq!(
        parse(&[b'Z']).err(),
        Some(DecodeError::UnknownMessageType(b'Z'))
    );
    assert_eq!(
        parse(&[b'Z', 1, 2, 3]).err(),
        Some(DecodeError::UnknownMessageType(b'Z'))
    );
}

#[test]
fn empty_buffer_fails() {
    assert_eq!(parse(&[]).err(), Some(DecodeError::Truncated));
}

#[test]
fn unknown_tuple_flag_in_message() {
    let mut buf = vec![b'I'];
    push_u32(&mut buf, 3);
    buf.push(1);
    push_u16(&mut buf, 1);
    buf.push(b'q');
    assert_eq!(parse(&buf).err(), Some(DecodeError::UnknownTupleFlag(b'q')));
}

#[test]
fn fixed_width_primitives() {
    let mut bytes = Vec::new();
    bytes.push(0xAB);
    push_u16(&mut bytes, 0x0102);
    push_u32(&mut bytes, 0xDEADBEEF);
    push_u64(&mut bytes, 0x0011223344556677);
    push_u32(&mut bytes, 0x8000_0000);
    bytes.push(2);
    let mut d = Decoder::new(&bytes);
    assert_eq!(d.get_u8(), Ok(0xAB));
    assert_eq!(d.get_u16(), Ok(0x0102));
    assert_eq!(d.get_u32(), Ok(0xDEADBEEF));
    assert_eq!(d.get_u64(), Ok(0x0011223344556677));
    assert_eq!(d.get_i32(), Ok(i32::MIN));
    assert_eq!(d.get_bool(), Ok(true));
    assert_eq!(d.get_u8(), Err(DecodeError::Truncated));
}

#[test]
fn get_string_consumes_terminator() {
    let mut d = Decoder::new(b"ab\0rest");
    assert_eq!(d.get_string(), Ok(String::from("ab")));
    assert_eq!(d.cursor(), 3);
}
