//! The message assembler: classify one complete message buffer by its
//! leading tag byte and decode the fixed field sequence of that kind, in
//! wire order. Assembly is all-or-nothing: the result is exactly one
//! `LogicalReplicationMessage` variant, or the first decode error.

use vstd::prelude::*;

use crate::messages::{
    Begin, Commit, DecodeError, Delete, Insert, LogicalReplicationMessage, Origin, Relation,
    Type, Update,
};
use crate::reader::Decoder;
use crate::wire::{
    TAG_BEGIN, TAG_COMMIT, TAG_DELETE, TAG_INSERT, TAG_ORIGIN, TAG_RELATION, TAG_TYPE,
    TAG_UPDATE, read_begin_at, read_commit_at, read_delete_at, read_insert_at, read_message,
    read_origin_at, read_relation_at, read_type_at, read_update_at,
};

verus! {

/// Decode the Begin field sequence after the tag.
fn parse_begin(d: &mut Decoder) -> (r: Result<Begin, DecodeError>)
    ensures
        final(d).bytes() == old(d).bytes(),
        match read_begin_at(old(d).bytes(), old(d).position()) {
            Ok((m, p)) => r matches Ok(x) && x@ == m && final(d).position() == p,
            Err((e, p)) => r matches Err(err) && err == e && final(d).position() == p,
        },
{
    let lsn = match d.get_u64() {
        Ok(v) => v,
        Err(e) => {
            return Err(e);
        },
    };
    let timestamp = match d.get_timestamp() {
        Ok(v) => v,
        Err(e) => {
            return Err(e);
        },
    };
    let xid = match d.get_i32() {
        Ok(v) => v,
        Err(e) => {
            return Err(e);
        },
    };
    Ok(Begin { lsn, timestamp, xid })
}

/// Decode the Commit field sequence after the tag.
fn parse_commit(d: &mut Decoder) -> (r: Result<Commit, DecodeError>)
    ensures
        final(d).bytes() == old(d).bytes(),
        match read_commit_at(old(d).bytes(), old(d).position()) {
            Ok((m, p)) => r matches Ok(x) && x@ == m && final(d).position() == p,
            Err((e, p)) => r matches Err(err) && err == e && final(d).position() == p,
        },
{
    let flags = match d.get_u8() {
        Ok(v) => v,
        Err(e) => {
            return Err(e);
        },
    };
    let lsn = match d.get_u64() {
        Ok(v) => v,
        Err(e) => {
            return Err(e);
        },
    };
    let transaction_lsn = match d.get_u64() {
        Ok(v) => v,
        Err(e) => {
            return Err(e);
        },
    };
    let timestamp = match d.get_timestamp() {
        Ok(v) => v,
        Err(e) => {
            return Err(e);
        },
    };
    Ok(Commit { flags, lsn, transaction_lsn, timestamp })
}

/// Decode the Origin field sequence after the tag.
fn parse_origin(d: &mut Decoder) -> (r: Result<Origin, DecodeError>)
    ensures
        final(d).bytes() == old(d).bytes(),
        match read_origin_at(old(d).bytes(), old(d).position()) {
            Ok((m, p)) => r matches Ok(x) && x@ == m && final(d).position() == p,
            Err((e, p)) => r matches Err(err) && err == e && final(d).position() == p,
        },
{
    let lsn = match d.get_u64() {
        Ok(v) => v,
        Err(e) => {
            return Err(e);
        },
    };
    let name = match d.get_string() {
        Ok(v) => v,
        Err(e) => {
            return Err(e);
        },
    };
    Ok(Origin { lsn, name })
}

/// Decode the Relation field sequence after the tag.
fn parse_relation(d: &mut Decoder) -> (r: Result<Relation, DecodeError>)
    ensures
        final(d).bytes() == old(d).bytes(),
        match read_relation_at(old(d).bytes(), old(d).position()) {
            Ok((m, p)) => r matches Ok(x) && x@ == m && final(d).position() == p,
            Err((e, p)) => r matches Err(err) && err == e && final(d).position() == p,
        },
{
    let id = match d.get_u32() {
        Ok(v) => v,
        Err(e) => {
            return Err(e);
        },
    };
    let namespace = match d.get_string() {
        Ok(v) => v,
        Err(e) => {
            return Err(e);
        },
    };
    let name = match d.get_string() {
        Ok(v) => v,
        Err(e) => {
            return Err(e);
        },
    };
    let replica = match d.get_u8() {
        Ok(v) => v,
        Err(e) => {
            return Err(e);
        },
    };
    let columns = match d.get_columns() {
        Ok(v) => v,
        Err(e) => {
            return Err(e);
        },
    };
    Ok(Relation { id, namespace, name, replica, columns })
}

/// Decode the Type field sequence after the tag.
fn parse_type(d: &mut Decoder) -> (r: Result<Type, DecodeError>)
    ensures
        final(d).bytes() == old(d).bytes(),
        match read_type_at(old(d).bytes(), old(d).position()) {
            Ok((m, p)) => r matches Ok(x) && x@ == m && final(d).position() == p,
            Err((e, p)) => r matches Err(err) && err == e && final(d).position() == p,
        },
{
    let id = match d.get_u32() {
        Ok(v) => v,
        Err(e) => {
            return Err(e);
        },
    };
    let namespace = match d.get_string() {
        Ok(v) => v,
        Err(e) => {
            return Err(e);
        },
    };
    let name = match d.get_string() {
        Ok(v) => v,
        Err(e) => {
            return Err(e);
        },
    };
    Ok(Type { id, namespace, name })
}

/// Decode the Insert field sequence after the tag.
fn parse_insert(d: &mut Decoder) -> (r: Result<Insert, DecodeError>)
    ensures
        final(d).bytes() == old(d).bytes(),
        match read_insert_at(old(d).bytes(), old(d).position()) {
            Ok((m, p)) => r matches Ok(x) && x@ == m && final(d).position() == p,
            Err((e, p)) => r matches Err(err) && err == e && final(d).position() == p,
        },
{
    let relation_id = match d.get_u32() {
        Ok(v) => v,
        Err(e) => {
            return Err(e);
        },
    };
    let new = match d.get_bool() {
        Ok(v) => v,
        Err(e) => {
            return Err(e);
        },
    };
    let row = match d.get_tupledata() {
        Ok(v) => v,
        Err(e) => {
            return Err(e);
        },
    };
    Ok(Insert { relation_id, new, row })
}

/// Decode the Update field sequence after the tag: when either optional
/// marker is present, the pre-image row that follows is decoded and kept.
fn parse_update(d: &mut Decoder) -> (r: Result<Update, DecodeError>)
    ensures
        final(d).bytes() == old(d).bytes(),
        match read_update_at(old(d).bytes(), old(d).position()) {
            Ok((m, p)) => r matches Ok(x) && x@ == m && final(d).position() == p,
            Err((e, p)) => r matches Err(err) && err == e && final(d).position() == p,
        },
{
    let relation_id = match d.get_u32() {
        Ok(v) => v,
        Err(e) => {
            return Err(e);
        },
    };
    let key = match d.get_rowinfo('K') {
        Ok(v) => v,
        Err(e) => {
            return Err(e);
        },
    };
    let old = match d.get_rowinfo('O') {
        Ok(v) => v,
        Err(e) => {
            return Err(e);
        },
    };
    let old_row = if key || old {
        match d.get_tupledata() {
            Ok(v) => Some(v),
            Err(e) => {
                return Err(e);
            },
        }
    } else {
        None
    };
    let new = match d.get_bool() {
        Ok(v) => v,
        Err(e) => {
            return Err(e);
        },
    };
    let row = match d.get_tupledata() {
        Ok(v) => v,
        Err(e) => {
            return Err(e);
        },
    };
    Ok(Update { relation_id, key, old, new, old_row, row })
}

/// Decode the Delete field sequence after the tag.
fn parse_delete(d: &mut Decoder) -> (r: Result<Delete, DecodeError>)
    ensures
        final(d).bytes() == old(d).bytes(),
        match read_delete_at(old(d).bytes(), old(d).position()) {
            Ok((m, p)) => r matches Ok(x) && x@ == m && final(d).position() == p,
            Err((e, p)) => r matches Err(err) && err == e && final(d).position() == p,
        },
{
    let relation_id = match d.get_u32() {
        Ok(v) => v,
        Err(e) => {
            return Err(e);
        },
    };
    let key = match d.get_rowinfo('K') {
        Ok(v) => v,
        Err(e) => {
            return Err(e);
        },
    };
    let old = match d.get_rowinfo('O') {
        Ok(v) => v,
        Err(e) => {
            return Err(e);
        },
    };
    let row = match d.get_tupledata() {
        Ok(v) => v,
        Err(e) => {
            return Err(e);
        },
    };
    Ok(Delete { relation_id, key, old, row })
}

/// Decode one logical replication message.
///
/// The buffer holds exactly one protocol message: a one-byte kind tag, then
/// that kind's fields in wire order, big-endian. The result is the fully
/// owned variant whose model is precisely what `read_message` says the
/// buffer holds, or that definition's error; nothing partial is ever
/// returned, and no input makes this function panic.
pub fn parse(src: &[u8]) -> (r: Result<LogicalReplicationMessage, DecodeError>)
    ensures
        match read_message(src@) {
            Ok(m) => r matches Ok(msg) && msg@ == m,
            Err(e) => r matches Err(err) && err == e,
        },
{
    let mut d = Decoder::new(src);
    let tag = match d.get_u8() {
        Ok(t) => t,
        Err(e) => {
            return Err(e);
        },
    };
    if tag == TAG_BEGIN {
        match parse_begin(&mut d) {
            Ok(m) => Ok(LogicalReplicationMessage::Begin(m)),
            Err(e) => Err(e),
        }
    } else if tag == TAG_COMMIT {
        match parse_commit(&mut d) {
            Ok(m) => Ok(LogicalReplicationMessage::Commit(m)),
            Err(e) => Err(e),
        }
    } else if tag == TAG_ORIGIN {
        match parse_origin(&mut d) {
            Ok(m) => Ok(LogicalReplicationMessage::Origin(m)),
            Err(e) => Err(e),
        }
    } else if tag == TAG_RELATION {
        match parse_relation(&mut d) {
            Ok(m) => Ok(LogicalReplicationMessage::Relation(m)),
            Err(e) => Err(e),
        }
    } else if tag == TAG_TYPE {
        match parse_type(&mut d) {
            Ok(m) => Ok(LogicalReplicationMessage::Type(m)),
            Err(e) => Err(e),
        }
    } else if tag == TAG_INSERT {
        match parse_insert(&mut d) {
            Ok(m) => Ok(LogicalReplicationMessage::Insert(m)),
            Err(e) => Err(e),
        }
    } else if tag == TAG_UPDATE {
        match parse_update(&mut d) {
            Ok(m) => Ok(LogicalReplicationMessage::Update(m)),
            Err(e) => Err(e),
        }
    } else if tag == TAG_DELETE {
        match parse_delete(&mut d) {
            Ok(m) => Ok(LogicalReplicationMessage::Delete(m)),
            Err(e) => Err(e),
        }
    } else {
        Err(DecodeError::UnknownMessageType(tag))
    }
}

} // verus!
