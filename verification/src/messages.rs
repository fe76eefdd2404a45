//! The typed records produced by one decode call, their mathematical models
//! (views over `Seq`), and the error type shared by every operation.

use vstd::prelude::*;

verus! {

/// Why a decode call failed.
#[derive(Clone, Copy, Debug, PartialEq, Eq, Structural)]
pub enum DecodeError {
    /// Fewer bytes remain than a primitive, a declared length, or a string
    /// terminator requires.
    Truncated,
    /// A string field's bytes are not valid UTF-8.
    MalformedText,
    /// The leading message-type byte matches no known message kind; carries
    /// the offending byte.
    UnknownMessageType(u8),
    /// A tuple-flag byte matches no known flag; carries the offending byte.
    UnknownTupleFlag(u8),
}

/// The wire marker of one column slot within a row image.
#[derive(Clone, Copy, Debug, PartialEq, Eq, Structural)]
pub enum TupleFlag {
    /// The column is SQL null (wire byte `n`).
    Null,
    /// The column is an unchanged TOASTed value (wire byte `u`).
    UnchangedToast,
    /// The column carries a length-prefixed payload (wire byte `t`).
    Text,
}

/// An instant given as whole microseconds since 2000-01-01 00:00:00 UTC,
/// the epoch the wire format counts from.
#[derive(Clone, Copy, Debug, PartialEq, Eq, Structural)]
pub struct PgTimestamp {
    pub microseconds: u64,
}

/// Microseconds from 1970-01-01 00:00:00 UTC to 2000-01-01 00:00:00 UTC.
pub const PG_EPOCH_UNIX_MICROS: u64 = 946684800000000;

impl PgTimestamp {
    /// The instant as microseconds since 1970-01-01 00:00:00 UTC; the wire
    /// offset is an unsigned count added to the fixed origin, so this never
    /// wraps.
    pub open spec fn micros_since_unix_epoch(self) -> int {
        PG_EPOCH_UNIX_MICROS + self.microseconds
    }
}

/// One column's payload within a row.
pub struct Tuple {
    pub flag: TupleFlag,
    /// Present exactly when `flag` is `Text`; an owned copy of the bytes
    /// declared by the wire length prefix.
    pub value: Option<Vec<u8>>,
}

/// Schema metadata for one column of a `Relation`.
pub struct Column {
    pub key: bool,
    pub name: String,
    pub pg_type: u32,
    pub mode: u32,
}

/// Start of a transaction.
pub struct Begin {
    /// The final LSN of the transaction.
    pub lsn: u64,
    /// Commit timestamp of the transaction.
    pub timestamp: PgTimestamp,
    /// Xid of the transaction.
    pub xid: i32,
}

/// End of a transaction.
pub struct Commit {
    pub flags: u8,
    /// The LSN of the commit.
    pub lsn: u64,
    /// The end LSN of the transaction.
    pub transaction_lsn: u64,
    pub timestamp: PgTimestamp,
}

/// Replication origin of the following messages.
pub struct Origin {
    pub lsn: u64,
    pub name: String,
}

/// Schema snapshot for a table, referenced by row-change messages.
pub struct Relation {
    /// ID of the relation.
    pub id: u32,
    /// Namespace (empty string for pg_catalog).
    pub namespace: String,
    pub name: String,
    pub replica: u8,
    pub columns: Vec<Column>,
}

/// A data type used by the source.
pub struct Type {
    /// ID of the data type.
    pub id: u32,
    pub namespace: String,
    pub name: String,
}

/// A row inserted into a relation.
pub struct Insert {
    /// ID of the relation corresponding to the ID in the relation message.
    pub relation_id: u32,
    /// Identifies the following row as a new tuple.
    pub new: bool,
    pub row: Vec<Tuple>,
}

/// A row updated in a relation.
pub struct Update {
    /// ID of the relation corresponding to the ID in the relation message.
    pub relation_id: u32,
    /// The old row is identified by its key columns.
    pub key: bool,
    /// The old row is a full pre-image.
    pub old: bool,
    /// Identifies the following row as a new tuple.
    pub new: bool,
    /// The pre-image row; present exactly when `key` or `old` is set.
    pub old_row: Option<Vec<Tuple>>,
    pub row: Vec<Tuple>,
}

/// A row deleted from a relation.
pub struct Delete {
    /// ID of the relation corresponding to the ID in the relation message.
    pub relation_id: u32,
    /// The row is identified by its key columns.
    pub key: bool,
    /// The row is a full pre-image.
    pub old: bool,
    pub row: Vec<Tuple>,
}

/// The closed sum over all message kinds; exactly one variant is produced
/// per decode call.
pub enum LogicalReplicationMessage {
    Begin(Begin),
    Commit(Commit),
    Origin(Origin),
    Relation(Relation),
    Type(Type),
    Insert(Insert),
    Update(Update),
    Delete(Delete),
}

/// Model of a `Tuple`: the payload as a byte sequence.
pub struct TupleView {
    pub flag: TupleFlag,
    pub value: Option<Seq<u8>>,
}

impl TupleView {
    /// The payload is present exactly when the flag announces one.
    pub open spec fn wf(self) -> bool {
        self.value is Some <==> self.flag is Text
    }
}

/// Model of a `Column`: the name as a character sequence.
pub struct ColumnView {
    pub key: bool,
    pub name: Seq<char>,
    pub pg_type: u32,
    pub mode: u32,
}

/// Model of a `Begin`.
pub struct BeginView {
    pub lsn: u64,
    pub timestamp: PgTimestamp,
    pub xid: i32,
}

/// Model of a `Commit`.
pub struct CommitView {
    pub flags: u8,
    pub lsn: u64,
    pub transaction_lsn: u64,
    pub timestamp: PgTimestamp,
}

/// Model of an `Origin`.
pub struct OriginView {
    pub lsn: u64,
    pub name: Seq<char>,
}

/// Model of a `Relation`.
pub struct RelationView {
    pub id: u32,
    pub namespace: Seq<char>,
    pub name: Seq<char>,
    pub replica: u8,
    pub columns: Seq<ColumnView>,
}

/// Model of a `Type`.
pub struct TypeView {
    pub id: u32,
    pub namespace: Seq<char>,
    pub name: Seq<char>,
}

/// Model of an `Insert`.
pub struct InsertView {
    pub relation_id: u32,
    pub new: bool,
    pub row: Seq<TupleView>,
}

/// Model of an `Update`.
pub struct UpdateView {
    pub relation_id: u32,
    pub key: bool,
    pub old: bool,
    pub new: bool,
    pub old_row: Option<Seq<TupleView>>,
    pub row: Seq<TupleView>,
}

/// Model of a `Delete`.
pub struct DeleteView {
    pub relation_id: u32,
    pub key: bool,
    pub old: bool,
    pub row: Seq<TupleView>,
}

/// Model of a `LogicalReplicationMessage`.
pub enum MessageView {
    Begin(BeginView),
    Commit(CommitView),
    Origin(OriginView),
    Relation(RelationView),
    Type(TypeView),
    Insert(InsertView),
    Update(UpdateView),
    Delete(DeleteView),
}

impl View for Tuple {
    type V = TupleView;

    open spec fn view(&self) -> TupleView {
        TupleView {
            flag: self.flag,
            value: match self.value {
                Some(v) => Some(v@),
                None => None,
            },
        }
    }
}

impl View for Column {
    type V = ColumnView;

    open spec fn view(&self) -> ColumnView {
        ColumnView { key: self.key, name: self.name@, pg_type: self.pg_type, mode: self.mode }
    }
}

/// The models of a sequence of decoded tuples, in order.
pub open spec fn tuples_view(row: Seq<Tuple>) -> Seq<TupleView> {
    row.map_values(|t: Tuple| t@)
}

/// The models of a sequence of decoded columns, in order.
pub open spec fn columns_view(cols: Seq<Column>) -> Seq<ColumnView> {
    cols.map_values(|c: Column| c@)
}

impl View for Begin {
    type V = BeginView;

    open spec fn view(&self) -> BeginView {
        BeginView { lsn: self.lsn, timestamp: self.timestamp, xid: self.xid }
    }
}

impl View for Commit {
    type V = CommitView;

    open spec fn view(&self) -> CommitView {
        CommitView {
            flags: self.flags,
            lsn: self.lsn,
            transaction_lsn: self.transaction_lsn,
            timestamp: self.timestamp,
        }
    }
}

impl View for Origin {
    type V = OriginView;

    open spec fn view(&self) -> OriginView {
        OriginView { lsn: self.lsn, name: self.name@ }
    }
}

impl View for Relation {
    type V = RelationView;

    open spec fn view(&self) -> RelationView {
        RelationView {
            id: self.id,
            namespace: self.namespace@,
            name: self.name@,
            replica: self.replica,
            columns: columns_view(self.columns@),
        }
    }
}

impl View for Type {
    type V = TypeView;

    open spec fn view(&self) -> TypeView {
        TypeView { id: self.id, namespace: self.namespace@, name: self.name@ }
    }
}

impl View for Insert {
    type V = InsertView;

    open spec fn view(&self) -> InsertView {
        InsertView {
            relation_id: self.relation_id,
            new: self.new,
            row: tuples_view(self.row@),
        }
    }
}

impl View for Update {
    type V = UpdateView;

    open spec fn view(&self) -> UpdateView {
        UpdateView {
            relation_id: self.relation_id,
            key: self.key,
            old: self.old,
            new: self.new,
            old_row: match self.old_row {
                Some(r) => Some(tuples_view(r@)),
                None => None,
            },
            row: tuples_view(self.row@),
        }
    }
}

impl View for Delete {
    type V = DeleteView;

    open spec fn view(&self) -> DeleteView {
        DeleteView {
            relation_id: self.relation_id,
            key: self.key,
            old: self.old,
            row: tuples_view(self.row@),
        }
    }
}

impl View for LogicalReplicationMessage {
    type V = MessageView;

    open spec fn view(&self) -> MessageView {
        match self {
            LogicalReplicationMessage::Begin(m) => MessageView::Begin(m@),
            LogicalReplicationMessage::Commit(m) => MessageView::Commit(m@),
            LogicalReplicationMessage::Origin(m) => MessageView::Origin(m@),
            LogicalReplicationMessage::Relation(m) => MessageView::Relation(m@),
            LogicalReplicationMessage::Type(m) => MessageView::Type(m@),
            LogicalReplicationMessage::Insert(m) => MessageView::Insert(m@),
            LogicalReplicationMessage::Update(m) => MessageView::Update(m@),
            LogicalReplicationMessage::Delete(m) => MessageView::Delete(m@),
        }
    }
}

} // verus!
