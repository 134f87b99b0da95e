//! What an environment asks of the key-value store (and of the clock) and
//! what it answers. The store itself (its transactions on disk) and the
//! clock are run by the program that hosts the scheduler: it takes each
//! environment's request after a step and hands the reply back before the
//! environment's next one.
use vstd::prelude::*;

verus! {

/// The kind of an open transaction.
#[derive(PartialEq, Eq, Structural, Clone, Copy)]
pub enum TxnKind {
    Read,
    Write,
}

/// A move of a cursor.
#[derive(PartialEq, Eq, Structural, Clone, Copy)]
pub enum CursorMove {
    /// To the first pair.
    First,
    /// To the last pair.
    Last,
    /// To the pair after the current one.
    Next,
    /// To the pair before the current one.
    Prev,
    /// To the first pair whose key is not below the key given.
    Seek,
    /// Nowhere: the current pair.
    Current,
}

/// A request to the store, on the environment's innermost transaction.
pub enum StorageRequest {
    /// Open a write transaction (the store has one at a time).
    BeginWrite,
    /// Open a read transaction on a snapshot.
    BeginRead,
    /// Store a value under a key that has none.
    Put(Vec<u8>, Vec<u8>),
    /// Look a key up.
    Get(Vec<u8>),
    /// Commit the write transaction and close it.
    Commit,
    /// Close the transaction, dropping what it did not commit.
    End,
    /// Close every transaction of the environment.
    EndAll,
    /// Read the host's hybrid logical clock: a timestamp later than any it
    /// gave before.
    ClockNow,
    /// Have the host's clock observe a timestamp, then read it: a timestamp
    /// later than the one observed.
    ClockObserve(Vec<u8>),
    /// Open a cursor on the transaction; the reply is its id.
    CursorOpen,
    /// Move the cursor with an id (the key is the one sought by a seek).
    Cursor(Vec<u8>, CursorMove, Vec<u8>),
}

pub enum RequestModel {
    BeginWrite,
    BeginRead,
    Put(Seq<u8>, Seq<u8>),
    Get(Seq<u8>),
    Commit,
    End,
    EndAll,
    ClockNow,
    ClockObserve(Seq<u8>),
    CursorOpen,
    Cursor(Seq<u8>, CursorMove, Seq<u8>),
}

impl StorageRequest {
    pub open spec fn model(&self) -> RequestModel {
        match self {
            StorageRequest::BeginWrite => RequestModel::BeginWrite,
            StorageRequest::BeginRead => RequestModel::BeginRead,
            StorageRequest::Put(k, v) => RequestModel::Put(k@, v@),
            StorageRequest::Get(k) => RequestModel::Get(k@),
            StorageRequest::Commit => RequestModel::Commit,
            StorageRequest::End => RequestModel::End,
            StorageRequest::EndAll => RequestModel::EndAll,
            StorageRequest::ClockNow => RequestModel::ClockNow,
            StorageRequest::ClockObserve(t) => RequestModel::ClockObserve(t@),
            StorageRequest::CursorOpen => RequestModel::CursorOpen,
            StorageRequest::Cursor(c, mv, k) => RequestModel::Cursor(c@, *mv, k@),
        }
    }
}

/// The store's reply to a request.
pub enum StorageReply {
    /// Done: the transaction is open, the value stored, or the commit made.
    Done,
    /// No transaction can be opened now (the write transaction is taken, or
    /// every reader slot is); ask again later.
    Busy,
    /// The key already has a value.
    Exists,
    /// The key's value, the clock's timestamp, or the new cursor's id.
    Found(Vec<u8>),
    /// The pair the cursor is on after the move: its key and value.
    Item(Vec<u8>, Vec<u8>),
    /// The id names no cursor of the environment.
    NoCursor,
    /// The key has no value, or the cursor no pair to move to.
    Missing,
    /// The store failed, with its description of the failure.
    Failed(Vec<u8>),
}

pub enum ReplyModel {
    Done,
    Busy,
    Exists,
    Found(Seq<u8>),
    Item(Seq<u8>, Seq<u8>),
    NoCursor,
    Missing,
    Failed(Seq<u8>),
}

impl StorageReply {
    pub open spec fn model(&self) -> ReplyModel {
        match self {
            StorageReply::Done => ReplyModel::Done,
            StorageReply::Busy => ReplyModel::Busy,
            StorageReply::Exists => ReplyModel::Exists,
            StorageReply::Found(v) => ReplyModel::Found(v@),
            StorageReply::Item(k, v) => ReplyModel::Item(k@, v@),
            StorageReply::NoCursor => ReplyModel::NoCursor,
            StorageReply::Missing => ReplyModel::Missing,
            StorageReply::Failed(d) => ReplyModel::Failed(d@),
        }
    }
}

} // verus!
