//! The wire format, stated mathematically: one specification-level reader per
//! primitive and per message kind, each giving the decoded value and the
//! exact cursor position after it, or the error and the position at which the
//! cursor stops. The executable reader and dispatcher are proved against
//! these definitions clause for clause.

use vstd::prelude::*;
use vstd::utf8::{decode_utf8, valid_utf8};

use crate::messages::{
    BeginView, ColumnView, CommitView, DecodeError, DeleteView, InsertView, MessageView,
    OriginView, PgTimestamp, RelationView, TupleFlag, TupleView, TypeView, UpdateView,
};

verus! {

/// Message-type tag of a Begin message.
pub const TAG_BEGIN: u8 = 66;

/// Message-type tag of a Commit message.
pub const TAG_COMMIT: u8 = 67;

/// Message-type tag of an Origin message.
pub const TAG_ORIGIN: u8 = 79;

/// Message-type tag of a Relation message.
pub const TAG_RELATION: u8 = 82;

/// Message-type tag of a Type message.
pub const TAG_TYPE: u8 = 89;

/// Message-type tag of an Insert message.
pub const TAG_INSERT: u8 = 73;

/// Message-type tag of an Update message.
pub const TAG_UPDATE: u8 = 85;

/// Message-type tag of a Delete message.
pub const TAG_DELETE: u8 = 68;

/// Tuple flag byte: the column is null.
pub const FLAG_NULL: u8 = 110;

/// Tuple flag byte: the column is an unchanged TOASTed value.
pub const FLAG_UNCHANGED_TOAST: u8 = 117;

/// Tuple flag byte: a length-prefixed payload follows.
pub const FLAG_TEXT: u8 = 116;

/// Optional row marker: the row is identified by its key columns.
pub const MARKER_KEY: u8 = 75;

/// Optional row marker: the row is a full pre-image.
pub const MARKER_OLD: u8 = 79;

/// A specification-level read: the value and the cursor position after it,
/// or the error and the position at which the cursor stops (the position
/// after the last field that was still read whole).
pub type ReadResult<T> = Result<(T, int), (DecodeError, int)>;

/// The unsigned value of a byte sequence read in big-endian order.
pub open spec fn be_value(s: Seq<u8>) -> nat
    decreases s.len(),
{
    if s.len() == 0 {
        0
    } else {
        be_value(s.drop_last()) * 256 + s.last() as nat
    }
}

/// 256 to the `n`: one more than the largest value of an `n`-byte field.
pub open spec fn be_bound(n: nat) -> nat
    decreases n,
{
    if n == 0 {
        1
    } else {
        256 * be_bound((n - 1) as nat)
    }
}

/// A big-endian value fits below the bound of its width.
pub proof fn lemma_be_value_bound(s: Seq<u8>)
    ensures
        be_value(s) < be_bound(s.len()),
    decreases s.len(),
{
    if s.len() > 0 {
        lemma_be_value_bound(s.drop_last());
    }
}

/// The bounds of the fixed field widths this format uses.
pub proof fn lemma_be_bound_values()
    ensures
        be_bound(1) == 0x100,
        be_bound(2) == 0x10000,
        be_bound(4) == 0x1_0000_0000,
        be_bound(7) == 0x100_0000_0000_0000,
        be_bound(8) == 0x1_0000_0000_0000_0000,
{
    reveal_with_fuel(be_bound, 9);
}

/// The bound never shrinks as the width grows.
pub proof fn lemma_be_bound_monotonic(m: nat, n: nat)
    requires
        m <= n,
    ensures
        be_bound(m) <= be_bound(n),
    decreases n,
{
    if m < n {
        lemma_be_bound_monotonic(m, (n - 1) as nat);
    }
}

/// The signed 32-bit value whose two's-complement bit pattern is `u`.
pub open spec fn i32_of_u32(u: u32) -> i32 {
    if u < 0x8000_0000 {
        u as i32
    } else {
        (u - 0x1_0000_0000) as i32
    }
}

/// Read an `n`-byte big-endian unsigned field at `pos`.
pub open spec fn read_be_at(s: Seq<u8>, pos: int, n: nat) -> ReadResult<nat> {
    if pos + n <= s.len() {
        Ok((be_value(s.subrange(pos, pos + n)), pos + n))
    } else {
        Err((DecodeError::Truncated, pos))
    }
}

/// Read one byte at `pos`.
pub open spec fn read_u8_at(s: Seq<u8>, pos: int) -> ReadResult<u8> {
    match read_be_at(s, pos, 1) {
        Ok((v, p)) => Ok((v as u8, p)),
        Err(e) => Err(e),
    }
}

/// Read a 16-bit big-endian field at `pos`.
pub open spec fn read_u16_at(s: Seq<u8>, pos: int) -> ReadResult<u16> {
    match read_be_at(s, pos, 2) {
        Ok((v, p)) => Ok((v as u16, p)),
        Err(e) => Err(e),
    }
}

/// Read a 32-bit big-endian field at `pos`.
pub open spec fn read_u32_at(s: Seq<u8>, pos: int) -> ReadResult<u32> {
    match read_be_at(s, pos, 4) {
        Ok((v, p)) => Ok((v as u32, p)),
        Err(e) => Err(e),
    }
}

/// Read a 64-bit big-endian field at `pos`.
pub open spec fn read_u64_at(s: Seq<u8>, pos: int) -> ReadResult<u64> {
    match read_be_at(s, pos, 8) {
        Ok((v, p)) => Ok((v as u64, p)),
        Err(e) => Err(e),
    }
}

/// Read a signed 32-bit big-endian field at `pos`.
pub open spec fn read_i32_at(s: Seq<u8>, pos: int) -> ReadResult<i32> {
    match read_u32_at(s, pos) {
        Ok((v, p)) => Ok((i32_of_u32(v), p)),
        Err(e) => Err(e),
    }
}

/// Read one byte at `pos` as a boolean: any non-zero byte is true.
pub open spec fn read_bool_at(s: Seq<u8>, pos: int) -> ReadResult<bool> {
    match read_u8_at(s, pos) {
        Ok((v, p)) => Ok((v != 0, p)),
        Err(e) => Err(e),
    }
}

/// Read an 8-byte microsecond count at `pos` as an instant relative to the
/// fixed 2000-01-01 epoch.
pub open spec fn read_timestamp_at(s: Seq<u8>, pos: int) -> ReadResult<PgTimestamp> {
    match read_u64_at(s, pos) {
        Ok((v, p)) => Ok((PgTimestamp { microseconds: v }, p)),
        Err(e) => Err(e),
    }
}

/// Peek one byte at `pos`: if it equals `tag` the cursor moves past it and
/// the read is true; otherwise the cursor stands still and the read is
/// false. An empty buffer is an error, not a false.
pub open spec fn read_marker_at(s: Seq<u8>, pos: int, tag: u8) -> ReadResult<bool> {
    if pos + 1 <= s.len() {
        if s[pos] == tag {
            Ok((true, pos + 1))
        } else {
            Ok((false, pos))
        }
    } else {
        Err((DecodeError::Truncated, pos))
    }
}

/// The position of the first zero byte at or after `pos`, if any.
pub open spec fn find_nul(s: Seq<u8>, pos: int) -> Option<int>
    decreases s.len() - pos,
{
    if pos < 0 || pos >= s.len() {
        None
    } else if s[pos] == 0 {
        Some(pos)
    } else {
        find_nul(s, pos + 1)
    }
}

/// `find_nul` finds nothing when no byte from `pos` on is zero.
pub proof fn lemma_find_nul_none(s: Seq<u8>, pos: int)
    requires
        0 <= pos <= s.len(),
        forall|j: int| pos <= j < s.len() ==> s[j] != 0,
    ensures
        find_nul(s, pos) is None,
    decreases s.len() - pos,
{
    if pos < s.len() {
        lemma_find_nul_none(s, pos + 1);
    }
}

/// `find_nul` finds exactly the first zero byte.
pub proof fn lemma_find_nul_some(s: Seq<u8>, pos: int, t: int)
    requires
        0 <= pos <= t < s.len(),
        s[t] == 0,
        forall|j: int| pos <= j < t ==> s[j] != 0,
    ensures
        find_nul(s, pos) == Some(t),
    decreases t - pos,
{
    if pos < t {
        lemma_find_nul_some(s, pos + 1, t);
    }
}

/// Read a zero-terminated UTF-8 string at `pos`; the cursor moves past the
/// terminator. A missing terminator is a truncation; bytes that are not
/// valid UTF-8 are malformed text; either way the cursor stands still.
pub open spec fn read_string_at(s: Seq<u8>, pos: int) -> ReadResult<Seq<char>> {
    match find_nul(s, pos) {
        Some(t) => {
            if valid_utf8(s.subrange(pos, t)) {
                Ok((decode_utf8(s.subrange(pos, t)), t + 1))
            } else {
                Err((DecodeError::MalformedText, pos))
            }
        },
        None => Err((DecodeError::Truncated, pos)),
    }
}

/// Read one tuple at `pos`: a flag byte, then for a `Text` flag a 4-byte
/// length and that many payload bytes. An unknown flag byte stops the
/// cursor directly after the flag and carries that byte in the error.
pub open spec fn read_tuple_at(s: Seq<u8>, pos: int) -> ReadResult<TupleView> {
    match read_u8_at(s, pos) {
        Ok((flag, p)) => {
            if flag == FLAG_NULL {
                Ok((TupleView { flag: TupleFlag::Null, value: None }, p))
            } else if flag == FLAG_UNCHANGED_TOAST {
                Ok((TupleView { flag: TupleFlag::UnchangedToast, value: None }, p))
            } else if flag == FLAG_TEXT {
                match read_u32_at(s, p) {
                    Ok((len, p2)) => {
                        if p2 + len <= s.len() {
                            Ok(
                                (
                                    TupleView {
                                        flag: TupleFlag::Text,
                                        value: Some(s.subrange(p2, p2 + len)),
                                    },
                                    p2 + len,
                                ),
                            )
                        } else {
                            Err((DecodeError::Truncated, p2))
                        }
                    },
                    Err(e) => Err(e),
                }
            } else {
                Err((DecodeError::UnknownTupleFlag(flag), p))
            }
        },
        Err(e) => Err(e),
    }
}

/// Read `n` consecutive tuples starting at `pos`.
pub open spec fn read_tuples_at(s: Seq<u8>, pos: int, n: nat) -> ReadResult<Seq<TupleView>>
    decreases n,
{
    if n == 0 {
        Ok((Seq::empty(), pos))
    } else {
        match read_tuple_at(s, pos) {
            Ok((t, p)) => match read_tuples_at(s, p, (n - 1) as nat) {
                Ok((ts, p2)) => Ok((seq![t] + ts, p2)),
                Err(e) => Err(e),
            },
            Err(e) => Err(e),
        }
    }
}

/// Read one row image at `pos`: a 16-bit tuple count, then that many tuples.
pub open spec fn read_tuple_row_at(s: Seq<u8>, pos: int) -> ReadResult<Seq<TupleView>> {
    match read_u16_at(s, pos) {
        Ok((n, p)) => read_tuples_at(s, p, n as nat),
        Err(e) => Err(e),
    }
}

/// Read one column description at `pos`: key flag, name, type OID, type
/// modifier, in that fixed order.
pub open spec fn read_column_at(s: Seq<u8>, pos: int) -> ReadResult<ColumnView> {
    match read_bool_at(s, pos) {
        Ok((key, p1)) => match read_string_at(s, p1) {
            Ok((name, p2)) => match read_u32_at(s, p2) {
                Ok((pg_type, p3)) => match read_u32_at(s, p3) {
                    Ok((mode, p4)) => Ok((ColumnView { key, name, pg_type, mode }, p4)),
                    Err(e) => Err(e),
                },
                Err(e) => Err(e),
            },
            Err(e) => Err(e),
        },
        Err(e) => Err(e),
    }
}

/// Read `n` consecutive column descriptions starting at `pos`.
pub open spec fn read_columns_at(s: Seq<u8>, pos: int, n: nat) -> ReadResult<Seq<ColumnView>>
    decreases n,
{
    if n == 0 {
        Ok((Seq::empty(), pos))
    } else {
        match read_column_at(s, pos) {
            Ok((c, p)) => match read_columns_at(s, p, (n - 1) as nat) {
                Ok((cs, p2)) => Ok((seq![c] + cs, p2)),
                Err(e) => Err(e),
            },
            Err(e) => Err(e),
        }
    }
}

/// Read a column list at `pos`: a 16-bit count, then that many columns.
pub open spec fn read_column_list_at(s: Seq<u8>, pos: int) -> ReadResult<Seq<ColumnView>> {
    match read_u16_at(s, pos) {
        Ok((n, p)) => read_columns_at(s, p, n as nat),
        Err(e) => Err(e),
    }
}

/// Field sequence of a Begin message after its tag.
pub open spec fn read_begin_at(s: Seq<u8>, pos: int) -> ReadResult<BeginView> {
    match read_u64_at(s, pos) {
        Ok((lsn, p1)) => match read_timestamp_at(s, p1) {
            Ok((timestamp, p2)) => match read_i32_at(s, p2) {
                Ok((xid, p3)) => Ok((BeginView { lsn, timestamp, xid }, p3)),
                Err(e) => Err(e),
            },
            Err(e) => Err(e),
        },
        Err(e) => Err(e),
    }
}

/// Field sequence of a Commit message after its tag.
pub open spec fn read_commit_at(s: Seq<u8>, pos: int) -> ReadResult<CommitView> {
    match read_u8_at(s, pos) {
        Ok((flags, p1)) => match read_u64_at(s, p1) {
            Ok((lsn, p2)) => match read_u64_at(s, p2) {
                Ok((transaction_lsn, p3)) => match read_timestamp_at(s, p3) {
                    Ok((timestamp, p4)) => Ok(
                        (CommitView { flags, lsn, transaction_lsn, timestamp }, p4),
                    ),
                    Err(e) => Err(e),
                },
                Err(e) => Err(e),
            },
            Err(e) => Err(e),
        },
        Err(e) => Err(e),
    }
}

/// Field sequence of an Origin message after its tag.
pub open spec fn read_origin_at(s: Seq<u8>, pos: int) -> ReadResult<OriginView> {
    match read_u64_at(s, pos) {
        Ok((lsn, p1)) => match read_string_at(s, p1) {
            Ok((name, p2)) => Ok((OriginView { lsn, name }, p2)),
            Err(e) => Err(e),
        },
        Err(e) => Err(e),
    }
}

/// Field sequence of a Relation message after its tag.
pub open spec fn read_relation_at(s: Seq<u8>, pos: int) -> ReadResult<RelationView> {
    match read_u32_at(s, pos) {
        Ok((id, p1)) => match read_string_at(s, p1) {
            Ok((namespace, p2)) => match read_string_at(s, p2) {
                Ok((name, p3)) => match read_u8_at(s, p3) {
                    Ok((replica, p4)) => match read_column_list_at(s, p4) {
                        Ok((columns, p5)) => Ok(
                            (RelationView { id, namespace, name, replica, columns }, p5),
                        ),
                        Err(e) => Err(e),
                    },
                    Err(e) => Err(e),
                },
                Err(e) => Err(e),
            },
            Err(e) => Err(e),
        },
        Err(e) => Err(e),
    }
}

/// Field sequence of a Type message after its tag.
pub open spec fn read_type_at(s: Seq<u8>, pos: int) -> ReadResult<TypeView> {
    match read_u32_at(s, pos) {
        Ok((id, p1)) => match read_string_at(s, p1) {
            Ok((namespace, p2)) => match read_string_at(s, p2) {
                Ok((name, p3)) => Ok((TypeView { id, namespace, name }, p3)),
                Err(e) => Err(e),
            },
            Err(e) => Err(e),
        },
        Err(e) => Err(e),
    }
}

/// Field sequence of an Insert message after its tag.
pub open spec fn read_insert_at(s: Seq<u8>, pos: int) -> ReadResult<InsertView> {
    match read_u32_at(s, pos) {
        Ok((relation_id, p1)) => match read_bool_at(s, p1) {
            Ok((new, p2)) => match read_tuple_row_at(s, p2) {
                Ok((row, p3)) => Ok((InsertView { relation_id, new, row }, p3)),
                Err(e) => Err(e),
            },
            Err(e) => Err(e),
        },
        Err(e) => Err(e),
    }
}

/// Field sequence of an Update message after its tag: when either optional
/// marker is present a pre-image row follows and is retained as `old_row`.
pub open spec fn read_update_at(s: Seq<u8>, pos: int) -> ReadResult<UpdateView> {
    match read_u32_at(s, pos) {
        Ok((relation_id, p1)) => match read_marker_at(s, p1, MARKER_KEY) {
            Ok((key, p2)) => match read_marker_at(s, p2, MARKER_OLD) {
                Ok((old, p3)) => {
                    let old_read = if key || old {
                        match read_tuple_row_at(s, p3) {
                            Ok((r, p4)) => Ok((Some(r), p4)),
                            Err(e) => Err(e),
                        }
                    } else {
                        Ok((None::<Seq<TupleView>>, p3))
                    };
                    match old_read {
                        Ok((old_row, p4)) => match read_bool_at(s, p4) {
                            Ok((new, p5)) => match read_tuple_row_at(s, p5) {
                                Ok((row, p6)) => Ok(
                                    (
                                        UpdateView { relation_id, key, old, new, old_row, row },
                                        p6,
                                    ),
                                ),
                                Err(e) => Err(e),
                            },
                            Err(e) => Err(e),
                        },
                        Err(e) => Err(e),
                    }
                },
                Err(e) => Err(e),
            },
            Err(e) => Err(e),
        },
        Err(e) => Err(e),
    }
}

/// Field sequence of a Delete message after its tag.
pub open spec fn read_delete_at(s: Seq<u8>, pos: int) -> ReadResult<DeleteView> {
    match read_u32_at(s, pos) {
        Ok((relation_id, p1)) => match read_marker_at(s, p1, MARKER_KEY) {
            Ok((key, p2)) => match read_marker_at(s, p2, MARKER_OLD) {
                Ok((old, p3)) => match read_tuple_row_at(s, p3) {
                    Ok((row, p4)) => Ok((DeleteView { relation_id, key, old, row }, p4)),
                    Err(e) => Err(e),
                },
                Err(e) => Err(e),
            },
            Err(e) => Err(e),
        },
        Err(e) => Err(e),
    }
}

/// Whether a byte is one of the eight known message-type tags.
pub open spec fn is_known_tag(tag: u8) -> bool {
    ||| tag == TAG_BEGIN
    ||| tag == TAG_COMMIT
    ||| tag == TAG_ORIGIN
    ||| tag == TAG_RELATION
    ||| tag == TAG_TYPE
    ||| tag == TAG_INSERT
    ||| tag == TAG_UPDATE
    ||| tag == TAG_DELETE
}

/// What decoding one whole message buffer yields: the variant named by the
/// leading tag byte, with its fields in wire order, or the first error.
/// Bytes after the message's last field are tolerated and ignored.
pub open spec fn read_message(s: Seq<u8>) -> Result<MessageView, DecodeError> {
    match read_u8_at(s, 0) {
        Err((e, _)) => Err(e),
        Ok((tag, p)) => {
            if tag == TAG_BEGIN {
                match read_begin_at(s, p) {
                    Ok((m, _)) => Ok(MessageView::Begin(m)),
                    Err((e, _)) => Err(e),
                }
            } else if tag == TAG_COMMIT {
                match read_commit_at(s, p) {
                    Ok((m, _)) => Ok(MessageView::Commit(m)),
                    Err((e, _)) => Err(e),
                }
            } else if tag == TAG_ORIGIN {
                match read_origin_at(s, p) {
                    Ok((m, _)) => Ok(MessageView::Origin(m)),
                    Err((e, _)) => Err(e),
                }
            } else if tag == TAG_RELATION {
                match read_relation_at(s, p) {
                    Ok((m, _)) => Ok(MessageView::Relation(m)),
                    Err((e, _)) => Err(e),
                }
            } else if tag == TAG_TYPE {
                match read_type_at(s, p) {
                    Ok((m, _)) => Ok(MessageView::Type(m)),
                    Err((e, _)) => Err(e),
                }
            } else if tag == TAG_INSERT {
                match read_insert_at(s, p) {
                    Ok((m, _)) => Ok(MessageView::Insert(m)),
                    Err((e, _)) => Err(e),
                }
            } else if tag == TAG_UPDATE {
                match read_update_at(s, p) {
                    Ok((m, _)) => Ok(MessageView::Update(m)),
                    Err((e, _)) => Err(e),
                }
            } else if tag == TAG_DELETE {
                match read_delete_at(s, p) {
                    Ok((m, _)) => Ok(MessageView::Delete(m)),
                    Err((e, _)) => Err(e),
                }
            } else {
                Err(DecodeError::UnknownMessageType(tag))
            }
        },
    }
}

} // verus!
