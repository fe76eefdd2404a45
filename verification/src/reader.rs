//! The primitive reader: a mutable cursor over a byte buffer whose typed
//! extraction operations are each proved to behave exactly as the
//! specification-level readers in `wire` say, on every input.

use vstd::prelude::*;
use vstd::slice::slice_to_vec;
use vstd::utf8::{decode_utf8, valid_utf8};

use crate::messages::{Column, DecodeError, PgTimestamp, Tuple, TupleFlag, columns_view, tuples_view};
use crate::wire::{
    FLAG_NULL, FLAG_TEXT, FLAG_UNCHANGED_TOAST, be_bound, be_value, find_nul, lemma_be_bound_monotonic, lemma_be_bound_values,
    lemma_find_nul_none, lemma_find_nul_some,
    lemma_be_value_bound, read_be_at, read_bool_at, read_column_at, read_column_list_at,
    read_columns_at, read_i32_at, read_marker_at, read_string_at, read_timestamp_at,
    read_tuple_at, read_tuple_row_at, read_tuples_at, read_u16_at, read_u32_at, read_u64_at,
    read_u8_at,
};

verus! {

/// Relies on `String::from_utf8` of std: it returns the string decoded from
/// the given bytes exactly when they are valid UTF-8, and an error otherwise.
#[verifier::external_body]
fn string_from_utf8(v: Vec<u8>) -> (r: Option<String>)
    ensures
        r is Some <==> valid_utf8(v@),
        r matches Some(s) ==> s@ == decode_utf8(v@),
{
    String::from_utf8(v).ok()
}

/// A mutable cursor over one message buffer: every extraction consumes the
/// bytes it reads and fails, leaving the buffer intact, when too few remain.
pub struct Decoder {
    buf: Vec<u8>,
    pos: usize,
}

impl Decoder {
    /// The bytes the cursor walks over; no operation changes them.
    pub closed spec fn bytes(&self) -> Seq<u8> {
        self.buf@
    }

    /// The cursor position: the count of bytes consumed so far.
    pub closed spec fn position(&self) -> int {
        self.pos as int
    }

    /// A cursor standing at the start of an owned copy of `src`.
    pub fn new(src: &[u8]) -> (d: Decoder)
        ensures
            d.bytes() == src@,
            d.position() == 0,
    {
        Decoder { buf: slice_to_vec(src), pos: 0 }
    }

    /// The cursor position, for callers outside any proof.
    pub fn cursor(&self) -> (p: usize)
        ensures
            p == self.position(),
    {
        self.pos
    }

    /// Read an `n`-byte big-endian unsigned field.
    fn read_be(&mut self, n: usize) -> (r: Result<u64, DecodeError>)
        requires
            1 <= n <= 8,
        ensures
            final(self).bytes() == old(self).bytes(),
            match read_be_at(old(self).bytes(), old(self).position(), n as nat) {
                Ok((v, p)) => {
                    &&& r matches Ok(x) && x == v
                    &&& v < be_bound(n as nat)
                    &&& final(self).position() == p
                },
                Err((e, p)) => {
                    &&& r matches Err(err) && err == e
                    &&& final(self).position() == p
                },
            },
    {
        if self.pos <= self.buf.len() && n <= self.buf.len() - self.pos {
            proof {
                lemma_be_value_bound(self.buf@.subrange(
                    self.pos as int,
                    self.pos + n,
                ));
            }
            let start = self.pos;
            let ghost s = self.buf@;
            let mut acc: u64 = 0;
            let mut i: usize = 0;
            while i < n
                invariant
                    1 <= n <= 8,
                    0 <= i <= n,
                    start + n <= s.len(),
                    start + n <= usize::MAX,
                    self.buf@ == s,
                    self.pos == start,
                    acc as nat == be_value(s.subrange(start as int, start + i)),
                    acc < be_bound(i as nat),
                decreases n - i,
            {
                let b = self.buf[start + i];
                proof {
                    lemma_be_bound_monotonic(i as nat, 7);
                    lemma_be_bound_values();
                    assert(s.subrange(start as int, start + i + 1).drop_last() =~= s.subrange(
                        start as int,
                        start + i,
                    ));
                    assert(s.subrange(start as int, start + i + 1).last() == s[start + i]);
                }
                acc = acc * 256 + (b as u64);
                i += 1;
            }
            self.pos = start + n;
            Ok(acc)
        } else {
            Err(DecodeError::Truncated)
        }
    }

    /// Read one byte.
    pub fn get_u8(&mut self) -> (r: Result<u8, DecodeError>)
        ensures
            final(self).bytes() == old(self).bytes(),
            match read_u8_at(old(self).bytes(), old(self).position()) {
                Ok((v, p)) => r matches Ok(x) && x == v && final(self).position() == p,
                Err((e, p)) => r matches Err(err) && err == e && final(self).position() == p,
            },
    {
        proof {
            lemma_be_bound_values();
        }
        match self.read_be(1) {
            Ok(v) => Ok(v as u8),
            Err(e) => Err(e),
        }
    }

    /// Read a 16-bit big-endian field.
    pub fn get_u16(&mut self) -> (r: Result<u16, DecodeError>)
        ensures
            final(self).bytes() == old(self).bytes(),
            match read_u16_at(old(self).bytes(), old(self).position()) {
                Ok((v, p)) => r matches Ok(x) && x == v && final(self).position() == p,
                Err((e, p)) => r matches Err(err) && err == e && final(self).position() == p,
            },
    {
        proof {
            lemma_be_bound_values();
        }
        match self.read_be(2) {
            Ok(v) => Ok(v as u16),
            Err(e) => Err(e),
        }
    }

    /// Read a 32-bit big-endian field.
    pub fn get_u32(&mut self) -> (r: Result<u32, DecodeError>)
        ensures
            final(self).bytes() == old(self).bytes(),
            match read_u32_at(old(self).bytes(), old(self).position()) {
                Ok((v, p)) => r matches Ok(x) && x == v && final(self).position() == p,
                Err((e, p)) => r matches Err(err) && err == e && final(self).position() == p,
            },
    {
        proof {
            lemma_be_bound_values();
        }
        match self.read_be(4) {
            Ok(v) => Ok(v as u32),
            Err(e) => Err(e),
        }
    }

    /// Read a 64-bit big-endian field.
    pub fn get_u64(&mut self) -> (r: Result<u64, DecodeError>)
        ensures
            final(self).bytes() == old(self).bytes(),
            match read_u64_at(old(self).bytes(), old(self).position()) {
                Ok((v, p)) => r matches Ok(x) && x == v && final(self).position() == p,
                Err((e, p)) => r matches Err(err) && err == e && final(self).position() == p,
            },
    {
        proof {
            lemma_be_bound_values();
        }
        self.read_be(8)
    }

    /// Read a signed 32-bit big-endian field (two's complement).
    pub fn get_i32(&mut self) -> (r: Result<i32, DecodeError>)
        ensures
            final(self).bytes() == old(self).bytes(),
            match read_i32_at(old(self).bytes(), old(self).position()) {
                Ok((v, p)) => r matches Ok(x) && x == v && final(self).position() == p,
                Err((e, p)) => r matches Err(err) && err == e && final(self).position() == p,
            },
    {
        match self.get_u32() {
            Ok(u) => {
                if u < 0x8000_0000 {
                    Ok(u as i32)
                } else {
                    Ok(-((0xFFFF_FFFFu32 - u) as i32) - 1)
                }
            },
            Err(e) => Err(e),
        }
    }

    /// Consume one byte; any non-zero byte is true.
    pub fn get_bool(&mut self) -> (r: Result<bool, DecodeError>)
        ensures
            final(self).bytes() == old(self).bytes(),
            match read_bool_at(old(self).bytes(), old(self).position()) {
                Ok((v, p)) => r matches Ok(x) && x == v && final(self).position() == p,
                Err((e, p)) => r matches Err(err) && err == e && final(self).position() == p,
            },
    {
        match self.get_u8() {
            Ok(b) => Ok(b != 0),
            Err(e) => Err(e),
        }
    }

    /// Consume 8 bytes as an unsigned microsecond count since the fixed
    /// 2000-01-01 00:00:00 UTC epoch; the count is kept exactly, with no
    /// rounding and no truncation.
    pub fn get_timestamp(&mut self) -> (r: Result<PgTimestamp, DecodeError>)
        ensures
            final(self).bytes() == old(self).bytes(),
            match read_timestamp_at(old(self).bytes(), old(self).position()) {
                Ok((v, p)) => r matches Ok(x) && x == v && final(self).position() == p,
                Err((e, p)) => r matches Err(err) && err == e && final(self).position() == p,
            },
    {
        match self.get_u64() {
            Ok(micros) => Ok(PgTimestamp { microseconds: micros }),
            Err(e) => Err(e),
        }
    }

    /// Peek one byte: if it equals `byte` consume it and return true, else
    /// leave the cursor unmoved and return false. An empty buffer is an
    /// error: no byte at all is not the same as a byte that differs. A
    /// marker is a single byte on the wire, so the tag character must be
    /// one byte wide.
    pub fn get_rowinfo(&mut self, byte: char) -> (r: Result<bool, DecodeError>)
        requires
            (byte as u32) < 256,
        ensures
            final(self).bytes() == old(self).bytes(),
            match read_marker_at(
                old(self).bytes(),
                old(self).position(),
                (byte as u32) as u8,
            ) {
                Ok((v, p)) => r matches Ok(x) && x == v && final(self).position() == p,
                Err((e, p)) => r matches Err(err) && err == e && final(self).position() == p,
            },
    {
        let tag: u8 = (byte as u32) as u8;
        if self.pos < self.buf.len() {
            if self.buf[self.pos] == tag {
                self.pos = self.pos + 1;
                Ok(true)
            } else {
                Ok(false)
            }
        } else {
            Err(DecodeError::Truncated)
        }
    }

    /// An owned copy of `self.buf[from..to]`.
    fn copy_range(&self, from: usize, to: usize) -> (v: Vec<u8>)
        requires
            from <= to <= self.bytes().len(),
        ensures
            v@ == self.bytes().subrange(from as int, to as int),
    {
        let mut v: Vec<u8> = Vec::new();
        let mut i: usize = from;
        while i < to
            invariant
                from <= i <= to <= self.bytes().len(),
                v@ =~= self.bytes().subrange(from as int, i as int),
            decreases to - i,
        {
            v.push(self.buf[i]);
            proof {
                assert(v@ =~= self.bytes().subrange(from as int, i + 1));
            }
            i += 1;
        }
        v
    }

    /// Consume bytes up to and including a terminating zero byte and return
    /// the preceding bytes as a UTF-8 string. Fails, leaving the cursor
    /// unmoved, when no terminator remains or the bytes are not valid UTF-8.
    pub fn get_string(&mut self) -> (r: Result<String, DecodeError>)
        ensures
            final(self).bytes() == old(self).bytes(),
            match read_string_at(old(self).bytes(), old(self).position()) {
                Ok((cs, p)) => r matches Ok(x) && x@ == cs && final(self).position() == p,
                Err((e, p)) => r matches Err(err) && err == e && final(self).position() == p,
            },
    {
        let ghost s = self.buf@;
        if self.pos > self.buf.len() {
            return Err(DecodeError::Truncated);
        }
        let mut t = self.pos;
        while t < self.buf.len() && self.buf[t] != 0
            invariant
                self.pos <= t <= self.buf.len(),
                self.buf@ == s,
                forall|j: int| self.pos <= j < t ==> s[j] != 0,
            decreases self.buf.len() - t,
        {
            t += 1;
        }
        if t == self.buf.len() {
            proof {
                lemma_find_nul_none(s, self.pos as int);
            }
            Err(DecodeError::Truncated)
        } else {
            proof {
                lemma_find_nul_some(s, self.pos as int, t as int);
            }
            let bytes = self.copy_range(self.pos, t);
            match string_from_utf8(bytes) {
                Some(st) => {
                    self.pos = t + 1;
                    Ok(st)
                },
                None => Err(DecodeError::MalformedText),
            }
        }
    }

    /// Read one tuple: a flag byte, and for a `Text` flag a 4-byte length
    /// and an owned copy of exactly that many payload bytes.
    fn get_tuple(&mut self) -> (r: Result<Tuple, DecodeError>)
        ensures
            final(self).bytes() == old(self).bytes(),
            match read_tuple_at(old(self).bytes(), old(self).position()) {
                Ok((t, p)) => r matches Ok(x) && x@ == t && final(self).position() == p,
                Err((e, p)) => r matches Err(err) && err == e && final(self).position() == p,
            },
    {
        let flag = match self.get_u8() {
            Ok(f) => f,
            Err(e) => {
                return Err(e);
            },
        };
        if flag == FLAG_NULL {
            Ok(Tuple { flag: TupleFlag::Null, value: None })
        } else if flag == FLAG_UNCHANGED_TOAST {
            Ok(Tuple { flag: TupleFlag::UnchangedToast, value: None })
        } else if flag == FLAG_TEXT {
            let len = match self.get_u32() {
                Ok(l) => l,
                Err(e) => {
                    return Err(e);
                },
            };
            if self.pos <= self.buf.len() && (len as usize) <= self.buf.len() - self.pos {
                let value = self.copy_range(self.pos, self.pos + (len as usize));
                self.pos = self.pos + (len as usize);
                Ok(Tuple { flag: TupleFlag::Text, value: Some(value) })
            } else {
                Err(DecodeError::Truncated)
            }
        } else {
            Err(DecodeError::UnknownTupleFlag(flag))
        }
    }

    /// Read one row image: a 16-bit tuple count, then exactly that many
    /// tuples. An unrecognized flag byte fails with that byte, the cursor
    /// standing directly after it; a declared length past the end of the
    /// buffer is a truncation.
    pub fn get_tupledata(&mut self) -> (r: Result<Vec<Tuple>, DecodeError>)
        ensures
            final(self).bytes() == old(self).bytes(),
            match read_tuple_row_at(old(self).bytes(), old(self).position()) {
                Ok((ts, p)) => {
                    &&& r matches Ok(row) && tuples_view(row@) == ts
                    &&& final(self).position() == p
                },
                Err((e, p)) => r matches Err(err) && err == e && final(self).position() == p,
            },
    {
        let ghost s = old(self).bytes();
        let ghost pos0 = old(self).position();
        let count = match self.get_u16() {
            Ok(c) => c,
            Err(e) => {
                return Err(e);
            },
        };
        let mut row: Vec<Tuple> = Vec::new();
        let mut i: usize = 0;
        #[verifier::loop_isolation(false)]
        while i < count as usize
            invariant
                self.bytes() == s,
                i <= count as usize,
                read_tuple_row_at(s, pos0) == (match read_tuples_at(
                    s,
                    self.position(),
                    (count - i) as nat,
                ) {
                    Ok((rest, end)) => Ok::<(Seq<crate::messages::TupleView>, int), (DecodeError, int)>(
                        (tuples_view(row@) + rest, end),
                    ),
                    Err(e) => Err(e),
                }),
            decreases count - i,
        {
            let ghost pos_i = self.position();
            let ghost row_pre = row@;
            let t = match self.get_tuple() {
                Ok(t) => t,
                Err(e) => {
                    return Err(e);
                },
            };
            row.push(t);
            i += 1;
            proof {
                assert(tuples_view(row@) =~= tuples_view(row_pre) + seq![t@]);
                if let Ok((rest, end)) = read_tuples_at(s, self.position(), (count - i) as nat) {
                    assert(tuples_view(row_pre) + (seq![t@] + rest) =~= (tuples_view(row_pre)
                        + seq![t@]) + rest);
                }
            }
        }
        Ok(row)
    }

    /// Read one column description: key flag, zero-terminated name, type
    /// OID and type modifier, in that fixed order.
    fn get_column(&mut self) -> (r: Result<Column, DecodeError>)
        ensures
            final(self).bytes() == old(self).bytes(),
            match read_column_at(old(self).bytes(), old(self).position()) {
                Ok((c, p)) => r matches Ok(x) && x@ == c && final(self).position() == p,
                Err((e, p)) => r matches Err(err) && err == e && final(self).position() == p,
            },
    {
        let key = match self.get_bool() {
            Ok(b) => b,
            Err(e) => {
                return Err(e);
            },
        };
        let name = match self.get_string() {
            Ok(n) => n,
            Err(e) => {
                return Err(e);
            },
        };
        let pg_type = match self.get_u32() {
            Ok(v) => v,
            Err(e) => {
                return Err(e);
            },
        };
        let mode = match self.get_u32() {
            Ok(v) => v,
            Err(e) => {
                return Err(e);
            },
        };
        Ok(Column { key, name, pg_type, mode })
    }

    /// Read a column list: a 16-bit count, then exactly that many column
    /// descriptions.
    pub fn get_columns(&mut self) -> (r: Result<Vec<Column>, DecodeError>)
        ensures
            final(self).bytes() == old(self).bytes(),
            match read_column_list_at(old(self).bytes(), old(self).position()) {
                Ok((cs, p)) => {
                    &&& r matches Ok(cols) && columns_view(cols@) == cs
                    &&& final(self).position() == p
                },
                Err((e, p)) => r matches Err(err) && err == e && final(self).position() == p,
            },
    {
        let ghost s = old(self).bytes();
        let ghost pos0 = old(self).position();
        let count = match self.get_u16() {
            Ok(c) => c,
            Err(e) => {
                return Err(e);
            },
        };
        let mut cols: Vec<Column> = Vec::new();
        let mut i: usize = 0;
        #[verifier::loop_isolation(false)]
        while i < count as usize
            invariant
                self.bytes() == s,
                i <= count as usize,
                read_column_list_at(s, pos0) == (match read_columns_at(
                    s,
                    self.position(),
                    (count - i) as nat,
                ) {
                    Ok((rest, end)) => Ok::<(Seq<crate::messages::ColumnView>, int), (DecodeError, int)>(
                        (columns_view(cols@) + rest, end),
                    ),
                    Err(e) => Err(e),
                }),
            decreases count - i,
        {
            let ghost cols_pre = cols@;
            let c = match self.get_column() {
                Ok(c) => c,
                Err(e) => {
                    return Err(e);
                },
            };
            cols.push(c);
            i += 1;
            proof {
                assert(columns_view(cols@) =~= columns_view(cols_pre) + seq![c@]);
                if let Ok((rest, end)) = read_columns_at(s, self.position(), (count - i) as nat) {
                    assert(columns_view(cols_pre) + (seq![c@] + rest) =~= (columns_view(cols_pre)
                        + seq![c@]) + rest);
                }
            }
        }
        Ok(cols)
    }
}

} // verus!
