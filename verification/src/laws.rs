//! The laws of the format, stated and proved once for all inputs: a
//! specification-level encoder, the well-formedness under which a message
//! survives the wire, and the round-trip theorem that decoding an encoded
//! message yields the message back, beside the smaller laws of the
//! primitives.

use vstd::prelude::*;
use vstd::arithmetic::div_mod::{lemma_fundamental_div_mod, lemma_mod_bound};
use vstd::utf8::{
    encode_scalar, encode_utf8, encode_utf8_decode_utf8, encode_utf8_valid_utf8,
    has_width_1_encoding, has_width_2_encoding, has_width_3_encoding,
};

use crate::messages::{
    BeginView, ColumnView, CommitView, DecodeError, DeleteView, InsertView, MessageView,
    OriginView, PgTimestamp, RelationView, TupleFlag, TupleView, TypeView, UpdateView,
    PG_EPOCH_UNIX_MICROS,
};
use crate::wire::{
    FLAG_NULL, FLAG_TEXT, FLAG_UNCHANGED_TOAST, MARKER_KEY, MARKER_OLD, TAG_BEGIN, TAG_COMMIT,
    TAG_DELETE, TAG_INSERT, TAG_ORIGIN, TAG_RELATION, TAG_TYPE, TAG_UPDATE, be_bound, be_value,
    is_known_tag, lemma_be_bound_values, lemma_be_value_bound, lemma_find_nul_some, read_be_at,
    read_begin_at, read_bool_at, read_column_at, read_column_list_at, read_columns_at,
    read_commit_at, read_delete_at, read_insert_at, read_marker_at, read_message, read_origin_at,
    read_relation_at, read_string_at, read_timestamp_at, read_tuple_at, read_tuple_row_at,
    read_tuples_at, read_type_at, read_u16_at, read_u8_at, read_update_at,
};

verus! {

/// The `n`-byte big-endian encoding of `v`.
pub open spec fn be_bytes(v: nat, n: nat) -> Seq<u8>
    decreases n,
{
    if n == 0 {
        Seq::empty()
    } else {
        be_bytes(v / 256, (n - 1) as nat) + seq![(v % 256) as u8]
    }
}

/// The unsigned 32-bit value whose two's-complement bit pattern is `x`.
pub open spec fn u32_of_i32(x: i32) -> nat {
    if x >= 0 {
        x as nat
    } else {
        (x + 0x1_0000_0000) as nat
    }
}

/// One byte for a boolean.
pub open spec fn bool_byte(b: bool) -> Seq<u8> {
    if b {
        seq![1u8]
    } else {
        seq![0u8]
    }
}

/// None of the characters is the zero scalar, whose encoding would be read
/// as the string terminator.
pub open spec fn no_nul(cs: Seq<char>) -> bool {
    forall|i: int| 0 <= i < cs.len() ==> (cs[i] as u32) != 0
}

/// A string on the wire: its UTF-8 bytes, then one zero byte.
pub open spec fn encode_string(cs: Seq<char>) -> Seq<u8> {
    encode_utf8(cs) + seq![0u8]
}

/// One tuple on the wire: its flag byte, and for a `Text` flag a 4-byte
/// length and the payload.
pub open spec fn encode_tuple(t: TupleView) -> Seq<u8> {
    match t.flag {
        TupleFlag::Null => seq![FLAG_NULL],
        TupleFlag::UnchangedToast => seq![FLAG_UNCHANGED_TOAST],
        TupleFlag::Text => seq![FLAG_TEXT] + be_bytes(t.value->0.len(), 4) + t.value->0,
    }
}

/// Consecutive tuples on the wire.
pub open spec fn encode_tuples(ts: Seq<TupleView>) -> Seq<u8>
    decreases ts.len(),
{
    if ts.len() == 0 {
        Seq::empty()
    } else {
        encode_tuple(ts[0]) + encode_tuples(ts.drop_first())
    }
}

/// A row image on the wire: a 16-bit tuple count, then the tuples.
pub open spec fn encode_tuple_row(ts: Seq<TupleView>) -> Seq<u8> {
    be_bytes(ts.len(), 2) + encode_tuples(ts)
}

/// One column description on the wire.
pub open spec fn encode_column(c: ColumnView) -> Seq<u8> {
    bool_byte(c.key) + encode_string(c.name) + be_bytes(c.pg_type as nat, 4) + be_bytes(
        c.mode as nat,
        4,
    )
}

/// Consecutive column descriptions on the wire.
pub open spec fn encode_columns(cs: Seq<ColumnView>) -> Seq<u8>
    decreases cs.len(),
{
    if cs.len() == 0 {
        Seq::empty()
    } else {
        encode_column(cs[0]) + encode_columns(cs.drop_first())
    }
}

/// A column list on the wire: a 16-bit count, then the columns.
pub open spec fn encode_column_list(cs: Seq<ColumnView>) -> Seq<u8> {
    be_bytes(cs.len(), 2) + encode_columns(cs)
}

/// The Begin field sequence after the tag.
pub open spec fn encode_begin(m: BeginView) -> Seq<u8> {
    be_bytes(m.lsn as nat, 8) + be_bytes(m.timestamp.microseconds as nat, 8) + be_bytes(
        u32_of_i32(m.xid),
        4,
    )
}

/// The Commit field sequence after the tag.
pub open spec fn encode_commit(m: CommitView) -> Seq<u8> {
    seq![m.flags] + be_bytes(m.lsn as nat, 8) + be_bytes(m.transaction_lsn as nat, 8) + be_bytes(
        m.timestamp.microseconds as nat,
        8,
    )
}

/// The Origin field sequence after the tag.
pub open spec fn encode_origin(m: OriginView) -> Seq<u8> {
    be_bytes(m.lsn as nat, 8) + encode_string(m.name)
}

/// The Relation field sequence after the tag.
pub open spec fn encode_relation(m: RelationView) -> Seq<u8> {
    be_bytes(m.id as nat, 4) + encode_string(m.namespace) + encode_string(m.name) + seq![m.replica]
        + encode_column_list(m.columns)
}

/// The Type field sequence after the tag.
pub open spec fn encode_type(m: TypeView) -> Seq<u8> {
    be_bytes(m.id as nat, 4) + encode_string(m.namespace) + encode_string(m.name)
}

/// The Insert field sequence after the tag.
pub open spec fn encode_insert(m: InsertView) -> Seq<u8> {
    be_bytes(m.relation_id as nat, 4) + bool_byte(m.new) + encode_tuple_row(m.row)
}

/// The optional marker bytes of an Update or Delete.
pub open spec fn encode_markers(key: bool, old: bool) -> Seq<u8> {
    (if key {
        seq![MARKER_KEY]
    } else {
        Seq::<u8>::empty()
    }) + (if old {
        seq![MARKER_OLD]
    } else {
        Seq::<u8>::empty()
    })
}

/// The Update field sequence after the tag.
pub open spec fn encode_update(m: UpdateView) -> Seq<u8> {
    be_bytes(m.relation_id as nat, 4) + encode_markers(m.key, m.old) + (if m.key || m.old {
        encode_tuple_row(m.old_row->0)
    } else {
        Seq::<u8>::empty()
    }) + bool_byte(m.new) + encode_tuple_row(m.row)
}

/// The Delete field sequence after the tag.
pub open spec fn encode_delete(m: DeleteView) -> Seq<u8> {
    be_bytes(m.relation_id as nat, 4) + encode_markers(m.key, m.old) + encode_tuple_row(m.row)
}

/// One whole message on the wire: the kind's tag byte, then its fields.
pub open spec fn encode_message(m: MessageView) -> Seq<u8> {
    match m {
        MessageView::Begin(b) => seq![TAG_BEGIN] + encode_begin(b),
        MessageView::Commit(c) => seq![TAG_COMMIT] + encode_commit(c),
        MessageView::Origin(o) => seq![TAG_ORIGIN] + encode_origin(o),
        MessageView::Relation(r) => seq![TAG_RELATION] + encode_relation(r),
        MessageView::Type(t) => seq![TAG_TYPE] + encode_type(t),
        MessageView::Insert(i) => seq![TAG_INSERT] + encode_insert(i),
        MessageView::Update(u) => seq![TAG_UPDATE] + encode_update(u),
        MessageView::Delete(d) => seq![TAG_DELETE] + encode_delete(d),
    }
}

/// A tuple the wire can carry: the payload is present exactly for a `Text`
/// flag, and its length fits the 4-byte length prefix.
pub open spec fn wf_tuple(t: TupleView) -> bool {
    &&& t.wf()
    &&& t.flag is Text ==> t.value->0.len() < 0x1_0000_0000
}

/// A row image the wire can carry: the count fits 16 bits and every tuple
/// is well formed.
pub open spec fn wf_row(ts: Seq<TupleView>) -> bool {
    &&& ts.len() < 0x10000
    &&& forall|i: int| 0 <= i < ts.len() ==> wf_tuple(#[trigger] ts[i])
}

/// A column description the wire can carry: the name holds no zero scalar.
pub open spec fn wf_column(c: ColumnView) -> bool {
    no_nul(c.name)
}

/// A message the wire can carry back unchanged. Strings must not hold the
/// zero scalar (its encoding is the terminator), counts and lengths must
/// fit their fixed-width prefixes, and an Update or Delete without a
/// marker must not have a row count whose leading byte collides with the
/// marker byte the reader would peek at — on such inputs the marker scheme
/// of the format itself is ambiguous.
pub open spec fn wf_message(m: MessageView) -> bool {
    match m {
        MessageView::Begin(_) => true,
        MessageView::Commit(_) => true,
        MessageView::Origin(o) => no_nul(o.name),
        MessageView::Relation(r) => {
            &&& no_nul(r.namespace)
            &&& no_nul(r.name)
            &&& r.columns.len() < 0x10000
            &&& forall|i: int| 0 <= i < r.columns.len() ==> wf_column(#[trigger] r.columns[i])
        },
        MessageView::Type(t) => no_nul(t.namespace) && no_nul(t.name),
        MessageView::Insert(i) => wf_row(i.row),
        MessageView::Update(u) => {
            &&& wf_row(u.row)
            &&& (u.old_row is Some <==> (u.key || u.old))
            &&& (u.key || u.old) ==> wf_row(u.old_row->0)
            &&& (u.key && !u.old) ==> u.old_row->0.len() / 256 != MARKER_OLD
        },
        MessageView::Delete(d) => {
            &&& wf_row(d.row)
            &&& (!d.key && !d.old) ==> (d.row.len() / 256 != MARKER_KEY && d.row.len() / 256
                != MARKER_OLD)
            &&& (d.key && !d.old) ==> d.row.len() / 256 != MARKER_OLD
        },
    }
}

/// A `n`-byte encoding is `n` bytes long.
pub proof fn lemma_be_bytes_len(v: nat, n: nat)
    ensures
        be_bytes(v, n).len() == n,
    decreases n,
{
    if n > 0 {
        lemma_be_bytes_len(v / 256, (n - 1) as nat);
    }
}

/// Reading back an `n`-byte big-endian encoding yields the encoded value.
pub proof fn lemma_be_bytes_value(v: nat, n: nat)
    requires
        v < be_bound(n),
    ensures
        be_value(be_bytes(v, n)) == v,
    decreases n,
{
    if n == 0 {
        assert(be_bytes(v, 0) =~= Seq::<u8>::empty());
    } else {
        let q = v / 256;
        let r = v % 256;
        lemma_fundamental_div_mod(v as int, 256);
        lemma_mod_bound(v as int, 256);
        assert(q < be_bound((n - 1) as nat));
        lemma_be_bytes_value(q, (n - 1) as nat);
        lemma_be_bytes_len(q, (n - 1) as nat);
        assert(be_bytes(v, n).drop_last() =~= be_bytes(q, (n - 1) as nat));
        assert(be_bytes(v, n).last() == (r as u8));
    }
}

/// A buffer region equal to a concatenation splits into regions equal to
/// the parts.
pub proof fn lemma_subrange_split(s: Seq<u8>, pos: int, a: Seq<u8>, b: Seq<u8>)
    requires
        0 <= pos,
        pos + a.len() + b.len() <= s.len(),
        s.subrange(pos, pos + a.len() + b.len()) == a + b,
    ensures
        s.subrange(pos, pos + a.len()) == a,
        s.subrange(pos + a.len(), pos + a.len() + b.len()) == b,
{
    let whole = s.subrange(pos, pos + a.len() + b.len());
    assert forall|i: int| 0 <= i < a.len() implies s.subrange(pos, pos + a.len())[i] == a[i] by {
        assert(whole[i] == (a + b)[i]);
    }
    assert forall|i: int|
        0 <= i < b.len() implies s.subrange(pos + a.len(), pos + a.len() + b.len())[i] == b[i] by {
        assert(whole[a.len() + i] == (a + b)[a.len() + i]);
    }
    assert(s.subrange(pos, pos + a.len()) =~= a);
    assert(s.subrange(pos + a.len(), pos + a.len() + b.len()) =~= b);
}

/// A framed fixed-width field reads back as the value it encodes.
pub proof fn lemma_read_be_framed(s: Seq<u8>, pos: int, v: nat, n: nat)
    requires
        0 <= pos,
        pos + n <= s.len(),
        v < be_bound(n),
        s.subrange(pos, pos + n) == be_bytes(v, n),
        be_bytes(v, n).len() == n,
    ensures
        read_be_at(s, pos, n) == Ok::<(nat, int), (DecodeError, int)>((v, pos + n)),
{
    lemma_be_bytes_value(v, n);
}

/// Reading one byte yields that byte.
pub proof fn lemma_read_byte(s: Seq<u8>, pos: int)
    requires
        0 <= pos,
        pos + 1 <= s.len(),
    ensures
        read_u8_at(s, pos) == Ok::<(u8, int), (DecodeError, int)>((s[pos], pos + 1)),
{
    reveal_with_fuel(be_value, 3);
    let one = s.subrange(pos, pos + 1);
    assert(one.drop_last() =~= Seq::<u8>::empty());
    assert(one.last() == s[pos]);
}

/// The encoding of a sequence of characters without the zero scalar holds
/// no zero byte.
pub proof fn lemma_encode_utf8_no_nul(cs: Seq<char>)
    requires
        no_nul(cs),
    ensures
        forall|i: int| 0 <= i < encode_utf8(cs).len() ==> encode_utf8(cs)[i] != 0,
    decreases cs.len(),
{
    if cs.len() > 0 {
        let c = cs[0] as u32;
        assert(c != 0);
        let head = encode_scalar(c);
        assert forall|i: int| 0 <= i < head.len() implies head[i] != 0 by {
            if has_width_1_encoding(c) {
                assert(c != 0 && c <= 0x7F ==> (c & 0x7F) != 0) by (bit_vector);
            } else if has_width_2_encoding(c) {
                assert((0xC0u8 | ((c >> 6) & 0x1F) as u8) != 0) by (bit_vector);
                assert((0x80u8 | (c & 0x3F) as u8) != 0) by (bit_vector);
            } else if has_width_3_encoding(c) {
                assert((0xE0u8 | ((c >> 12) & 0x0F) as u8) != 0) by (bit_vector);
                assert((0x80u8 | ((c >> 6) & 0x3F) as u8) != 0) by (bit_vector);
                assert((0x80u8 | (c & 0x3F) as u8) != 0) by (bit_vector);
            } else {
                assert((0xF0u8 | ((c >> 18) & 0x7) as u8) != 0) by (bit_vector);
                assert((0x80u8 | ((c >> 12) & 0x3F) as u8) != 0) by (bit_vector);
                assert((0x80u8 | ((c >> 6) & 0x3F) as u8) != 0) by (bit_vector);
                assert((0x80u8 | (c & 0x3F) as u8) != 0) by (bit_vector);
            }
        }
        let rest = cs.drop_first();
        assert(no_nul(rest)) by {
            assert(forall|i: int| 0 <= i < rest.len() ==> rest[i] == cs[i + 1]);
        }
        lemma_encode_utf8_no_nul(rest);
        assert forall|i: int| 0 <= i < encode_utf8(cs).len() implies encode_utf8(cs)[i] != 0 by {
            if i < head.len() {
                assert(encode_utf8(cs)[i] == head[i]);
            } else {
                assert(encode_utf8(cs)[i] == encode_utf8(rest)[i - head.len()]);
            }
        }
    }
}

/// A framed terminated string reads back as the characters it encodes.
pub proof fn lemma_read_string_framed(s: Seq<u8>, pos: int, cs: Seq<char>)
    requires
        no_nul(cs),
        0 <= pos,
        pos + encode_string(cs).len() <= s.len(),
        s.subrange(pos, pos + encode_string(cs).len()) == encode_string(cs),
    ensures
        read_string_at(s, pos) == Ok::<(Seq<char>, int), (DecodeError, int)>(
            (cs, pos + encode_string(cs).len()),
        ),
{
    let eb = encode_utf8(cs);
    let t = pos + eb.len();
    lemma_encode_utf8_no_nul(cs);
    assert forall|j: int| pos <= j < t implies s[j] != 0 by {
        assert(s[j] == s.subrange(pos, pos + encode_string(cs).len())[j - pos]);
        assert(encode_string(cs)[j - pos] == eb[j - pos]);
    }
    assert(s[t] == encode_string(cs)[eb.len() as int]);
    assert(s[t] == 0);
    lemma_find_nul_some(s, pos, t);
    assert(s.subrange(pos, t) =~= eb) by {
        assert forall|j: int| 0 <= j < eb.len() implies s.subrange(pos, t)[j] == eb[j] by {
            assert(s[pos + j] == encode_string(cs)[j]);
        }
    }
    encode_utf8_valid_utf8(cs);
    encode_utf8_decode_utf8(cs);
}

/// A framed boolean byte reads back as the boolean it encodes.
proof fn lemma_read_bool_framed(s: Seq<u8>, pos: int, b: bool)
    requires
        0 <= pos,
        pos + 1 <= s.len(),
        s.subrange(pos, pos + 1) == bool_byte(b),
    ensures
        read_bool_at(s, pos) == Ok::<(bool, int), (DecodeError, int)>((b, pos + 1)),
{
    lemma_read_byte(s, pos);
    assert(s[pos] == bool_byte(b)[0]);
}

/// A framed tuple reads back as the tuple it encodes.
proof fn lemma_read_tuple_framed(s: Seq<u8>, pos: int, t: TupleView)
    requires
        wf_tuple(t),
        0 <= pos,
        pos + encode_tuple(t).len() <= s.len(),
        s.subrange(pos, pos + encode_tuple(t).len()) == encode_tuple(t),
    ensures
        read_tuple_at(s, pos) == Ok::<(TupleView, int), (DecodeError, int)>(
            (t, pos + encode_tuple(t).len()),
        ),
{
    lemma_read_byte(s, pos);
    match t.flag {
        TupleFlag::Null => {
            assert(s[pos] == encode_tuple(t)[0]);
        },
        TupleFlag::UnchangedToast => {
            assert(s[pos] == encode_tuple(t)[0]);
        },
        TupleFlag::Text => {
            let v = t.value->0;
            let lenb = be_bytes(v.len(), 4);
            lemma_be_bytes_len(v.len(), 4);
            lemma_subrange_split(s, pos, seq![FLAG_TEXT] + lenb, v);
            lemma_subrange_split(s, pos, seq![FLAG_TEXT], lenb);
            assert(s[pos] == (seq![FLAG_TEXT])[0]);
            lemma_be_bound_values();
            lemma_read_be_framed(s, pos + 1, v.len(), 4);
            assert(Some(s.subrange(pos + 5, pos + 5 + v.len())) == t.value);
        },
    }
}

/// A framed run of tuples reads back as the tuples it encodes.
proof fn lemma_read_tuples_framed(s: Seq<u8>, pos: int, ts: Seq<TupleView>)
    requires
        forall|i: int| 0 <= i < ts.len() ==> wf_tuple(#[trigger] ts[i]),
        0 <= pos,
        pos + encode_tuples(ts).len() <= s.len(),
        s.subrange(pos, pos + encode_tuples(ts).len()) == encode_tuples(ts),
    ensures
        read_tuples_at(s, pos, ts.len()) == Ok::<(Seq<TupleView>, int), (DecodeError, int)>(
            (ts, pos + encode_tuples(ts).len()),
        ),
    decreases ts.len(),
{
    if ts.len() == 0 {
        assert(ts =~= Seq::<TupleView>::empty());
    } else {
        let head = encode_tuple(ts[0]);
        let tail = encode_tuples(ts.drop_first());
        lemma_subrange_split(s, pos, head, tail);
        lemma_read_tuple_framed(s, pos, ts[0]);
        assert(forall|i: int| 0 <= i < ts.drop_first().len() ==> ts.drop_first()[i] == ts[i + 1]);
        lemma_read_tuples_framed(s, pos + head.len(), ts.drop_first());
        assert(seq![ts[0]] + ts.drop_first() =~= ts);
    }
}

/// The first byte of a two-byte count is its high byte.
proof fn lemma_count_first_byte(v: nat)
    requires
        v < 0x10000,
    ensures
        be_bytes(v, 2).len() == 2,
        be_bytes(v, 2)[0] == (v / 256) as u8,
        v / 256 < 256,
    {
    reveal_with_fuel(be_bytes, 3);
    lemma_fundamental_div_mod(v as int, 256);
    lemma_mod_bound(v as int, 256);
    vstd::arithmetic::div_mod::lemma_small_mod((v / 256) as nat, 256);
    lemma_be_bytes_len(v, 2);
}

/// A framed row image reads back as the row it encodes.
proof fn lemma_read_tuple_row_framed(s: Seq<u8>, pos: int, ts: Seq<TupleView>)
    requires
        wf_row(ts),
        0 <= pos,
        pos + encode_tuple_row(ts).len() <= s.len(),
        s.subrange(pos, pos + encode_tuple_row(ts).len()) == encode_tuple_row(ts),
    ensures
        read_tuple_row_at(s, pos) == Ok::<(Seq<TupleView>, int), (DecodeError, int)>(
            (ts, pos + encode_tuple_row(ts).len()),
        ),
{
    let cb = be_bytes(ts.len(), 2);
    lemma_be_bytes_len(ts.len(), 2);
    lemma_subrange_split(s, pos, cb, encode_tuples(ts));
    lemma_be_bound_values();
    lemma_read_be_framed(s, pos, ts.len(), 2);
    lemma_read_tuples_framed(s, pos + 2, ts);
}

/// A framed column description reads back as the column it encodes.
proof fn lemma_read_column_framed(s: Seq<u8>, pos: int, c: ColumnView)
    requires
        wf_column(c),
        0 <= pos,
        pos + encode_column(c).len() <= s.len(),
        s.subrange(pos, pos + encode_column(c).len()) == encode_column(c),
    ensures
        read_column_at(s, pos) == Ok::<(ColumnView, int), (DecodeError, int)>(
            (c, pos + encode_column(c).len()),
        ),
{
    let a = bool_byte(c.key);
    let b = encode_string(c.name);
    let d = be_bytes(c.pg_type as nat, 4);
    let e = be_bytes(c.mode as nat, 4);
    lemma_be_bytes_len(c.pg_type as nat, 4);
    lemma_be_bytes_len(c.mode as nat, 4);
    lemma_subrange_split(s, pos, (a + b) + d, e);
    lemma_subrange_split(s, pos, a + b, d);
    lemma_subrange_split(s, pos, a, b);
    lemma_read_bool_framed(s, pos, c.key);
    lemma_read_string_framed(s, pos + 1, c.name);
    lemma_be_bound_values();
    lemma_read_be_framed(s, pos + 1 + b.len(), c.pg_type as nat, 4);
    lemma_read_be_framed(s, pos + 1 + b.len() + 4, c.mode as nat, 4);
}

/// A framed run of column descriptions reads back as the columns it
/// encodes.
proof fn lemma_read_columns_framed(s: Seq<u8>, pos: int, cs: Seq<ColumnView>)
    requires
        forall|i: int| 0 <= i < cs.len() ==> wf_column(#[trigger] cs[i]),
        0 <= pos,
        pos + encode_columns(cs).len() <= s.len(),
        s.subrange(pos, pos + encode_columns(cs).len()) == encode_columns(cs),
    ensures
        read_columns_at(s, pos, cs.len()) == Ok::<(Seq<ColumnView>, int), (DecodeError, int)>(
            (cs, pos + encode_columns(cs).len()),
        ),
    decreases cs.len(),
{
    if cs.len() == 0 {
        assert(cs =~= Seq::<ColumnView>::empty());
    } else {
        let head = encode_column(cs[0]);
        let tail = encode_columns(cs.drop_first());
        lemma_subrange_split(s, pos, head, tail);
        lemma_read_column_framed(s, pos, cs[0]);
        assert(forall|i: int| 0 <= i < cs.drop_first().len() ==> cs.drop_first()[i] == cs[i + 1]);
        lemma_read_columns_framed(s, pos + head.len(), cs.drop_first());
        assert(seq![cs[0]] + cs.drop_first() =~= cs);
    }
}

/// A framed column list reads back as the columns it encodes.
proof fn lemma_read_column_list_framed(s: Seq<u8>, pos: int, cs: Seq<ColumnView>)
    requires
        cs.len() < 0x10000,
        forall|i: int| 0 <= i < cs.len() ==> wf_column(#[trigger] cs[i]),
        0 <= pos,
        pos + encode_column_list(cs).len() <= s.len(),
        s.subrange(pos, pos + encode_column_list(cs).len()) == encode_column_list(cs),
    ensures
        read_column_list_at(s, pos) == Ok::<(Seq<ColumnView>, int), (DecodeError, int)>(
            (cs, pos + encode_column_list(cs).len()),
        ),
{
    let cb = be_bytes(cs.len(), 2);
    lemma_be_bytes_len(cs.len(), 2);
    lemma_subrange_split(s, pos, cb, encode_columns(cs));
    lemma_be_bound_values();
    lemma_read_be_framed(s, pos, cs.len(), 2);
    lemma_read_columns_framed(s, pos + 2, cs);
}

/// A framed Begin body reads back as the record it encodes.
proof fn lemma_read_begin_framed(s: Seq<u8>, pos: int, m: BeginView)
    requires
        0 <= pos,
        pos + encode_begin(m).len() <= s.len(),
        s.subrange(pos, pos + encode_begin(m).len()) == encode_begin(m),
    ensures
        read_begin_at(s, pos) == Ok::<(BeginView, int), (DecodeError, int)>(
            (m, pos + encode_begin(m).len()),
        ),
{
    let a = be_bytes(m.lsn as nat, 8);
    let b = be_bytes(m.timestamp.microseconds as nat, 8);
    let c = be_bytes(u32_of_i32(m.xid), 4);
    lemma_be_bytes_len(m.lsn as nat, 8);
    lemma_be_bytes_len(m.timestamp.microseconds as nat, 8);
    lemma_be_bytes_len(u32_of_i32(m.xid), 4);
    lemma_subrange_split(s, pos, a + b, c);
    lemma_subrange_split(s, pos, a, b);
    lemma_be_bound_values();
    lemma_read_be_framed(s, pos, m.lsn as nat, 8);
    lemma_read_be_framed(s, pos + 8, m.timestamp.microseconds as nat, 8);
    lemma_read_be_framed(s, pos + 16, u32_of_i32(m.xid), 4);
}

/// A framed Commit body reads back as the record it encodes.
proof fn lemma_read_commit_framed(s: Seq<u8>, pos: int, m: CommitView)
    requires
        0 <= pos,
        pos + encode_commit(m).len() <= s.len(),
        s.subrange(pos, pos + encode_commit(m).len()) == encode_commit(m),
    ensures
        read_commit_at(s, pos) == Ok::<(CommitView, int), (DecodeError, int)>(
            (m, pos + encode_commit(m).len()),
        ),
{
    let a = seq![m.flags];
    let b = be_bytes(m.lsn as nat, 8);
    let c = be_bytes(m.transaction_lsn as nat, 8);
    let d = be_bytes(m.timestamp.microseconds as nat, 8);
    lemma_be_bytes_len(m.lsn as nat, 8);
    lemma_be_bytes_len(m.transaction_lsn as nat, 8);
    lemma_be_bytes_len(m.timestamp.microseconds as nat, 8);
    lemma_subrange_split(s, pos, (a + b) + c, d);
    lemma_subrange_split(s, pos, a + b, c);
    lemma_subrange_split(s, pos, a, b);
    lemma_read_byte(s, pos);
    assert(s[pos] == a[0]);
    lemma_be_bound_values();
    lemma_read_be_framed(s, pos + 1, m.lsn as nat, 8);
    lemma_read_be_framed(s, pos + 9, m.transaction_lsn as nat, 8);
    lemma_read_be_framed(s, pos + 17, m.timestamp.microseconds as nat, 8);
}

/// A framed Origin body reads back as the record it encodes.
proof fn lemma_read_origin_framed(s: Seq<u8>, pos: int, m: OriginView)
    requires
        no_nul(m.name),
        0 <= pos,
        pos + encode_origin(m).len() <= s.len(),
        s.subrange(pos, pos + encode_origin(m).len()) == encode_origin(m),
    ensures
        read_origin_at(s, pos) == Ok::<(OriginView, int), (DecodeError, int)>(
            (m, pos + encode_origin(m).len()),
        ),
{
    let a = be_bytes(m.lsn as nat, 8);
    lemma_be_bytes_len(m.lsn as nat, 8);
    lemma_subrange_split(s, pos, a, encode_string(m.name));
    lemma_be_bound_values();
    lemma_read_be_framed(s, pos, m.lsn as nat, 8);
    lemma_read_string_framed(s, pos + 8, m.name);
}

/// A framed Relation body reads back as the record it encodes.
proof fn lemma_read_relation_framed(s: Seq<u8>, pos: int, m: RelationView)
    requires
        no_nul(m.namespace),
        no_nul(m.name),
        m.columns.len() < 0x10000,
        forall|i: int| 0 <= i < m.columns.len() ==> wf_column(#[trigger] m.columns[i]),
        0 <= pos,
        pos + encode_relation(m).len() <= s.len(),
        s.subrange(pos, pos + encode_relation(m).len()) == encode_relation(m),
    ensures
        read_relation_at(s, pos) == Ok::<(RelationView, int), (DecodeError, int)>(
            (m, pos + encode_relation(m).len()),
        ),
{
    let a = be_bytes(m.id as nat, 4);
    let b = encode_string(m.namespace);
    let c = encode_string(m.name);
    let d = seq![m.replica];
    let e = encode_column_list(m.columns);
    lemma_be_bytes_len(m.id as nat, 4);
    lemma_subrange_split(s, pos, ((a + b) + c) + d, e);
    lemma_subrange_split(s, pos, (a + b) + c, d);
    lemma_subrange_split(s, pos, a + b, c);
    lemma_subrange_split(s, pos, a, b);
    lemma_be_bound_values();
    lemma_read_be_framed(s, pos, m.id as nat, 4);
    lemma_read_string_framed(s, pos + 4, m.namespace);
    lemma_read_string_framed(s, pos + 4 + b.len(), m.name);
    lemma_read_byte(s, pos + 4 + b.len() + c.len());
    assert(s[pos + 4 + b.len() + c.len()] == d[0]);
    lemma_read_column_list_framed(s, pos + 4 + b.len() + c.len() + 1, m.columns);
}

/// A framed Type body reads back as the record it encodes.
proof fn lemma_read_type_framed(s: Seq<u8>, pos: int, m: TypeView)
    requires
        no_nul(m.namespace),
        no_nul(m.name),
        0 <= pos,
        pos + encode_type(m).len() <= s.len(),
        s.subrange(pos, pos + encode_type(m).len()) == encode_type(m),
    ensures
        read_type_at(s, pos) == Ok::<(TypeView, int), (DecodeError, int)>(
            (m, pos + encode_type(m).len()),
        ),
{
    let a = be_bytes(m.id as nat, 4);
    let b = encode_string(m.namespace);
    let c = encode_string(m.name);
    lemma_be_bytes_len(m.id as nat, 4);
    lemma_subrange_split(s, pos, a + b, c);
    lemma_subrange_split(s, pos, a, b);
    lemma_be_bound_values();
    lemma_read_be_framed(s, pos, m.id as nat, 4);
    lemma_read_string_framed(s, pos + 4, m.namespace);
    lemma_read_string_framed(s, pos + 4 + b.len(), m.name);
}

/// A framed Insert body reads back as the record it encodes.
proof fn lemma_read_insert_framed(s: Seq<u8>, pos: int, m: InsertView)
    requires
        wf_row(m.row),
        0 <= pos,
        pos + encode_insert(m).len() <= s.len(),
        s.subrange(pos, pos + encode_insert(m).len()) == encode_insert(m),
    ensures
        read_insert_at(s, pos) == Ok::<(InsertView, int), (DecodeError, int)>(
            (m, pos + encode_insert(m).len()),
        ),
{
    let a = be_bytes(m.relation_id as nat, 4);
    let b = bool_byte(m.new);
    let c = encode_tuple_row(m.row);
    lemma_be_bytes_len(m.relation_id as nat, 4);
    lemma_subrange_split(s, pos, a + b, c);
    lemma_subrange_split(s, pos, a, b);
    lemma_be_bound_values();
    lemma_read_be_framed(s, pos, m.relation_id as nat, 4);
    lemma_read_bool_framed(s, pos + 4, m.new);
    lemma_read_tuple_row_framed(s, pos + 5, m.row);
}

/// A framed Update body reads back as the record it encodes, the pre-image
/// row included.
proof fn lemma_read_update_framed(s: Seq<u8>, pos: int, m: UpdateView)
    requires
        wf_row(m.row),
        m.old_row is Some <==> (m.key || m.old),
        (m.key || m.old) ==> wf_row(m.old_row->0),
        (m.key && !m.old) ==> m.old_row->0.len() / 256 != MARKER_OLD,
        0 <= pos,
        pos + encode_update(m).len() <= s.len(),
        s.subrange(pos, pos + encode_update(m).len()) == encode_update(m),
    ensures
        read_update_at(s, pos) == Ok::<(UpdateView, int), (DecodeError, int)>(
            (m, pos + encode_update(m).len()),
        ),
{
    let a = be_bytes(m.relation_id as nat, 4);
    let mk = encode_markers(m.key, m.old);
    let orow = if m.key || m.old {
        encode_tuple_row(m.old_row->0)
    } else {
        Seq::<u8>::empty()
    };
    let bb = bool_byte(m.new);
    let row = encode_tuple_row(m.row);
    lemma_be_bytes_len(m.relation_id as nat, 4);
    lemma_subrange_split(s, pos, ((a + mk) + orow) + bb, row);
    lemma_subrange_split(s, pos, (a + mk) + orow, bb);
    lemma_subrange_split(s, pos, a + mk, orow);
    lemma_subrange_split(s, pos, a, mk);
    lemma_be_bound_values();
    lemma_read_be_framed(s, pos, m.relation_id as nat, 4);
    let p1 = pos + 4;
    let p2 = p1 + if m.key { 1int } else { 0int };
    let p3 = p1 + mk.len();
    // the byte each optional-marker read peeks at
    if m.key {
        assert(s[p1] == mk[0]);
    } else if m.old {
        assert(s[p1] == mk[0]);
        assert(mk[0] == MARKER_OLD);
    } else {
        assert(s[p1] == bb[0]);
    }
    if m.old {
        assert(s[p2] == mk[p2 - p1]);
        assert(mk[p2 - p1] == MARKER_OLD);
    } else if m.key {
        lemma_count_first_byte(m.old_row->0.len());
        assert(s[p2] == orow[0]);
    } else {
        assert(s[p2] == bb[0]);
    }
    assert(read_marker_at(s, p1, MARKER_KEY) == Ok::<(bool, int), (DecodeError, int)>(
        (m.key, p2),
    ));
    assert(read_marker_at(s, p2, MARKER_OLD) == Ok::<(bool, int), (DecodeError, int)>(
        (m.old, p3),
    ));
    if m.key || m.old {
        lemma_read_tuple_row_framed(s, p3, m.old_row->0);
        assert(Some(m.old_row->0) == m.old_row);
    }
    let p4 = p3 + orow.len();
    lemma_read_bool_framed(s, p4, m.new);
    lemma_read_tuple_row_framed(s, p4 + 1, m.row);
}

/// A framed Delete body reads back as the record it encodes.
proof fn lemma_read_delete_framed(s: Seq<u8>, pos: int, m: DeleteView)
    requires
        wf_row(m.row),
        (!m.key && !m.old) ==> (m.row.len() / 256 != MARKER_KEY && m.row.len() / 256
            != MARKER_OLD),
        (m.key && !m.old) ==> m.row.len() / 256 != MARKER_OLD,
        0 <= pos,
        pos + encode_delete(m).len() <= s.len(),
        s.subrange(pos, pos + encode_delete(m).len()) == encode_delete(m),
    ensures
        read_delete_at(s, pos) == Ok::<(DeleteView, int), (DecodeError, int)>(
            (m, pos + encode_delete(m).len()),
        ),
{
    let a = be_bytes(m.relation_id as nat, 4);
    let mk = encode_markers(m.key, m.old);
    let row = encode_tuple_row(m.row);
    lemma_be_bytes_len(m.relation_id as nat, 4);
    lemma_subrange_split(s, pos, a + mk, row);
    lemma_subrange_split(s, pos, a, mk);
    lemma_be_bound_values();
    lemma_read_be_framed(s, pos, m.relation_id as nat, 4);
    lemma_count_first_byte(m.row.len());
    let p1 = pos + 4;
    let p2 = p1 + if m.key { 1int } else { 0int };
    let p3 = p1 + mk.len();
    if m.key {
        assert(s[p1] == mk[0]);
    } else if m.old {
        assert(s[p1] == mk[0]);
        assert(mk[0] == MARKER_OLD);
    } else {
        assert(s[p1] == row[0]);
    }
    if m.old {
        assert(s[p2] == mk[p2 - p1]);
        assert(mk[p2 - p1] == MARKER_OLD);
    } else {
        assert(s[p2] == row[0]);
    }
    assert(read_marker_at(s, p1, MARKER_KEY) == Ok::<(bool, int), (DecodeError, int)>(
        (m.key, p2),
    ));
    assert(read_marker_at(s, p2, MARKER_OLD) == Ok::<(bool, int), (DecodeError, int)>(
        (m.old, p3),
    ));
    lemma_read_tuple_row_framed(s, p3, m.row);
}

/// Law: decoding the encoding of any message the wire can carry yields
/// exactly that message back. Together with the exact contract of `parse`
/// this says that for every supported kind, a buffer built after the field
/// table decodes to a variant whose fields match the encoded values.
pub proof fn lemma_round_trip(m: MessageView)
    requires
        wf_message(m),
    ensures
        read_message(encode_message(m)) == Ok::<MessageView, DecodeError>(m),
{
    let s = encode_message(m);
    lemma_read_byte(s, 0);
    match m {
        MessageView::Begin(b) => {
            let body = encode_begin(b);
            assert(s.subrange(0, 1 + body.len() as int) =~= seq![TAG_BEGIN] + body);
            lemma_subrange_split(s, 0, seq![TAG_BEGIN], body);
            assert(s[0] == (seq![TAG_BEGIN])[0]);
            lemma_read_begin_framed(s, 1, b);
        },
        MessageView::Commit(c) => {
            let body = encode_commit(c);
            assert(s.subrange(0, 1 + body.len() as int) =~= seq![TAG_COMMIT] + body);
            lemma_subrange_split(s, 0, seq![TAG_COMMIT], body);
            assert(s[0] == (seq![TAG_COMMIT])[0]);
            lemma_read_commit_framed(s, 1, c);
        },
        MessageView::Origin(o) => {
            let body = encode_origin(o);
            assert(s.subrange(0, 1 + body.len() as int) =~= seq![TAG_ORIGIN] + body);
            lemma_subrange_split(s, 0, seq![TAG_ORIGIN], body);
            assert(s[0] == (seq![TAG_ORIGIN])[0]);
            lemma_read_origin_framed(s, 1, o);
        },
        MessageView::Relation(r) => {
            let body = encode_relation(r);
            assert(s.subrange(0, 1 + body.len() as int) =~= seq![TAG_RELATION] + body);
            lemma_subrange_split(s, 0, seq![TAG_RELATION], body);
            assert(s[0] == (seq![TAG_RELATION])[0]);
            lemma_read_relation_framed(s, 1, r);
        },
        MessageView::Type(t) => {
            let body = encode_type(t);
            assert(s.subrange(0, 1 + body.len() as int) =~= seq![TAG_TYPE] + body);
            lemma_subrange_split(s, 0, seq![TAG_TYPE], body);
            assert(s[0] == (seq![TAG_TYPE])[0]);
            lemma_read_type_framed(s, 1, t);
        },
        MessageView::Insert(i) => {
            let body = encode_insert(i);
            assert(s.subrange(0, 1 + body.len() as int) =~= seq![TAG_INSERT] + body);
            lemma_subrange_split(s, 0, seq![TAG_INSERT], body);
            assert(s[0] == (seq![TAG_INSERT])[0]);
            lemma_read_insert_framed(s, 1, i);
        },
        MessageView::Update(u) => {
            let body = encode_update(u);
            assert(s.subrange(0, 1 + body.len() as int) =~= seq![TAG_UPDATE] + body);
            lemma_subrange_split(s, 0, seq![TAG_UPDATE], body);
            assert(s[0] == (seq![TAG_UPDATE])[0]);
            lemma_read_update_framed(s, 1, u);
        },
        MessageView::Delete(d) => {
            let body = encode_delete(d);
            assert(s.subrange(0, 1 + body.len() as int) =~= seq![TAG_DELETE] + body);
            lemma_subrange_split(s, 0, seq![TAG_DELETE], body);
            assert(s[0] == (seq![TAG_DELETE])[0]);
            lemma_read_delete_framed(s, 1, d);
        },
    }
}

/// Law: an 8-byte field of `n` decodes to the instant exactly `n`
/// microseconds after the fixed 2000-01-01 00:00:00 UTC epoch, with no
/// rounding; a field of zero decodes to the epoch instant itself.
pub proof fn lemma_timestamp_exact(s: Seq<u8>, pos: int, n: u64)
    requires
        0 <= pos,
        pos + 8 <= s.len(),
        s.subrange(pos, pos + 8) == be_bytes(n as nat, 8),
    ensures
        read_timestamp_at(s, pos) == Ok::<(PgTimestamp, int), (DecodeError, int)>(
            (PgTimestamp { microseconds: n }, pos + 8),
        ),
        (PgTimestamp { microseconds: n }).micros_since_unix_epoch() == PG_EPOCH_UNIX_MICROS
            + n,
        n == 0 ==> (PgTimestamp { microseconds: n }).micros_since_unix_epoch()
            == PG_EPOCH_UNIX_MICROS,
{
    lemma_be_bound_values();
    lemma_be_bytes_len(n as nat, 8);
    lemma_read_be_framed(s, pos, n as nat, 8);
}

/// Law: a row image whose 16-bit count is zero decodes to the empty row,
/// the cursor standing directly after the count.
pub proof fn lemma_tuple_row_zero_count(s: Seq<u8>, pos: int)
    requires
        0 <= pos,
        pos + 2 <= s.len(),
        be_value(s.subrange(pos, pos + 2)) == 0,
    ensures
        read_tuple_row_at(s, pos) == Ok::<(Seq<TupleView>, int), (DecodeError, int)>(
            (Seq::empty(), pos + 2),
        ),
{
}

/// Law: a row image whose first flag byte matches no known flag fails with
/// exactly that byte, the cursor having consumed no byte beyond the flag
/// itself.
pub proof fn lemma_tuple_row_unknown_flag(s: Seq<u8>, pos: int)
    requires
        0 <= pos,
        pos + 3 <= s.len(),
        be_value(s.subrange(pos, pos + 2)) >= 1,
        s[pos + 2] != FLAG_NULL,
        s[pos + 2] != FLAG_UNCHANGED_TOAST,
        s[pos + 2] != FLAG_TEXT,
    ensures
        read_tuple_row_at(s, pos) == Err::<(Seq<TupleView>, int), (DecodeError, int)>(
            (DecodeError::UnknownTupleFlag(s[pos + 2]), pos + 3),
        ),
{
    lemma_read_byte(s, pos + 2);
    let n = be_value(s.subrange(pos, pos + 2));
    lemma_be_value_bound(s.subrange(pos, pos + 2));
    lemma_be_bound_values();
    assert((n as u16) as nat == n);
    assert(read_tuples_at(s, pos + 2, n as nat) == Err::<(Seq<TupleView>, int), (
        DecodeError,
        int,
    )>((DecodeError::UnknownTupleFlag(s[pos + 2]), pos + 3)));
}

/// Law: reading an optional row marker returns true and advances exactly
/// one byte when the next byte is the marker, and returns false leaving the
/// cursor unmoved when it is any other byte.
pub proof fn lemma_row_marker(s: Seq<u8>, pos: int, tag: u8)
    requires
        0 <= pos,
        pos < s.len(),
    ensures
        s[pos] == tag ==> read_marker_at(s, pos, tag) == Ok::<(bool, int), (DecodeError, int)>(
            (true, pos + 1),
        ),
        s[pos] != tag ==> read_marker_at(s, pos, tag) == Ok::<(bool, int), (DecodeError, int)>(
            (false, pos),
        ),
{
}

/// Law: a buffer whose leading byte is no known tag fails with exactly
/// that byte as the unrecognized message type, whatever bytes follow it.
pub proof fn lemma_unknown_tag(s: Seq<u8>)
    requires
        s.len() >= 1,
        !is_known_tag(s[0]),
    ensures
        read_message(s) == Err::<MessageView, DecodeError>(
            DecodeError::UnknownMessageType(s[0]),
        ),
{
    lemma_read_byte(s, 0);
}

/// Every row image a read yields satisfies the data model's invariant: a
/// tuple's payload is present exactly under a `Text` flag, its length fits
/// the 4-byte prefix, and the row fits the 16-bit count.
pub proof fn lemma_decoded_row_invariant(s: Seq<u8>, pos: int)
    requires
        0 <= pos,
    ensures
        read_tuple_row_at(s, pos) matches Ok((ts, _)) ==> ts.len() < 0x10000 && (forall|i: int|
            0 <= i < ts.len() ==> wf_tuple(#[trigger] ts[i])),
{
    if let Ok((n, p)) = read_u16_at(s, pos) {
        lemma_read_tuples_wf(s, p, n as nat);
    }
}

/// Every tuple in a run of tuple reads is well formed, and the run is as
/// long as the count asked for.
proof fn lemma_read_tuples_wf(s: Seq<u8>, pos: int, n: nat)
    requires
        0 <= pos,
    ensures
        read_tuples_at(s, pos, n) matches Ok((ts, _)) ==> ts.len() == n && (forall|i: int|
            0 <= i < ts.len() ==> wf_tuple(#[trigger] ts[i])),
    decreases n,
{
    if n > 0 {
        if let Ok((t, p)) = read_tuple_at(s, pos) {
            assert(wf_tuple(t));
            lemma_read_tuples_wf(s, p, (n - 1) as nat);
            if let Ok((rest, _)) = read_tuples_at(s, p, (n - 1) as nat) {
                let ts = seq![t] + rest;
                assert forall|i: int| 0 <= i < ts.len() implies wf_tuple(ts[i]) by {
                    if i == 0 {
                        assert(ts[0] == t);
                    } else {
                        assert(ts[i] == rest[i - 1]);
                    }
                }
            }
        }
    }
}

} // verus!
