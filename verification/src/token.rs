//! Protocol events and the data carried by them.
//!
//! A token source yields a sequence of [`ReceivedToken`] values (or protocol
//! errors). The multiplexers in this crate only inspect result-set headers,
//! rows and the terminator family; every other event kind is opaque to them
//! and is represented by [`ReceivedToken::Other`].

use vstd::prelude::*;

verus! {

/// Status bit meaning "the batch continues beyond this terminator".
pub const DONE_MORE: u16 = 0x1;

/// Status bit meaning "this terminator ends an entire remote-procedure
/// invocation chain".
pub const DONE_FINAL: u16 = 0x10;

/// The flag set carried by a terminator event. Several flags may be set at
/// once; only `DONE_MORE` and `DONE_FINAL` are interpreted here.
#[derive(Clone, Copy, PartialEq, Eq, Structural, Debug)]
pub struct DoneStatus {
    pub bits: u16,
}

impl DoneStatus {
    /// Whether every bit of `mask` is set.
    pub open spec fn spec_contains(self, mask: u16) -> bool {
        self.bits & mask == mask
    }

    pub fn contains(&self, mask: u16) -> (r: bool)
        ensures
            r == self.spec_contains(mask),
    {
        self.bits & mask == mask
    }
}

/// The payload of a `Done`, `DoneProc` or `DoneInProc` terminator event.
#[derive(Clone, Copy, PartialEq, Eq, Structural, Debug)]
pub struct Done {
    pub status: DoneStatus,
    /// The affected-row count carried by the terminator.
    pub done_rows: u64,
}

/// One column of a result set's schema.
#[derive(Clone, Debug, PartialEq)]
pub struct Column {
    pub name: String,
}

/// A decoded protocol event, as handed over by the token source.
#[derive(Clone, Debug)]
pub enum ReceivedToken {
    /// A result-set header carrying the column schema of the rows to follow.
    NewResultset(Vec<Column>),
    /// One row's raw, undecoded column data.
    Row(Vec<u8>),
    /// Batch-level terminator.
    Done(Done),
    /// Terminator of a remote-procedure invocation.
    DoneProc(Done),
    /// Terminator of one statement inside a remote procedure.
    DoneInProc(Done),
    /// Any event kind outside the documented set; skipped without effect.
    Other,
}

/// The single error kind of this layer: protocol failures surfaced verbatim
/// by the token source, plus the one message synthesized here when metadata
/// is never received.
#[derive(Clone, Debug)]
pub enum Error {
    Protocol(String),
}

/// The mathematical value of an [`Error`]: its message.
pub open spec fn error_view(e: Error) -> Seq<char> {
    match e {
        Error::Protocol(m) => m@,
    }
}

/// The mathematical value of a schema: the sequence of column names.
pub open spec fn schema_view(cols: Seq<Column>) -> Seq<Seq<char>> {
    cols.map_values(|c: Column| c.name@)
}

/// Spec-level terminator payload.
pub struct DoneInfo {
    pub more: bool,
    pub fin: bool,
    pub rows: u64,
}

/// The mathematical value of one item yielded by a token source: either a
/// decoded event or a protocol failure.
pub enum Event {
    NewResultset(Seq<Seq<char>>),
    Row(Seq<u8>),
    Done(DoneInfo),
    DoneProc(DoneInfo),
    DoneInProc(DoneInfo),
    Other,
    Failed(Seq<char>),
}

pub open spec fn done_view(d: Done) -> DoneInfo {
    DoneInfo {
        more: d.status.spec_contains(DONE_MORE),
        fin: d.status.spec_contains(DONE_FINAL),
        rows: d.done_rows,
    }
}

/// The mathematical value of one token-source item.
pub open spec fn event_view(e: Result<ReceivedToken, Error>) -> Event {
    match e {
        Ok(ReceivedToken::NewResultset(cols)) => Event::NewResultset(schema_view(cols@)),
        Ok(ReceivedToken::Row(data)) => Event::Row(data@),
        Ok(ReceivedToken::Done(d)) => Event::Done(done_view(d)),
        Ok(ReceivedToken::DoneProc(d)) => Event::DoneProc(done_view(d)),
        Ok(ReceivedToken::DoneInProc(d)) => Event::DoneInProc(done_view(d)),
        Ok(ReceivedToken::Other) => Event::Other,
        Err(e) => Event::Failed(error_view(e)),
    }
}

} // verus!
