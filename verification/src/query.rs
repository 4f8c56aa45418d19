//! The row stream: a one-token-lookahead state machine that turns the event
//! sequence of one batch into rows grouped by result set, plus the
//! caller-facing handle around it.
//!
//! The machine's behaviour is captured by the spec function [`poll_step`]
//! over a [`StreamModel`]; every executable operation is specified against
//! it. The `MORE` flag on a terminator is ambiguous: whether another result
//! set follows is only known once the next event has been read, so the
//! machine buffers that lookahead by storing the next schema early and
//! blocking row production (`HasNext`) until the caller asks for the next
//! result set with `next_resultset`.

use std::sync::Arc;
use vstd::prelude::*;

use crate::source::TokenSource;
use crate::token::{Column, Error, Event, ReceivedToken, error_view, schema_view, DONE_MORE};

verus! {

/// Phase of the row stream. Transitions are monotonic except for the
/// caller-driven `HasNext -> Initial` reset.
#[derive(Clone, Copy, PartialEq, Eq, Structural, Debug)]
pub enum QueryStreamState {
    /// Reading the current result set; polling may pull from the source.
    Initial,
    /// A terminator with `MORE` was seen: a further result set may or may
    /// not follow; polling may still pull to find out.
    HasPotentiallyNext,
    /// The lookahead confirmed a next result set and its schema is already
    /// stored; polling is blocked until the caller advances to it.
    HasNext,
    /// Terminal: nothing more is read and no more rows are produced.
    Done,
}

/// One yielded row: a shared handle to its result set's schema plus the
/// row's raw, undecoded column data.
#[derive(Clone, Debug)]
pub struct Row {
    pub columns: Arc<Vec<Column>>,
    pub data: Vec<u8>,
}

/// The mathematical value of a row: its schema's column names and its raw
/// data.
#[verifier::ext_equal]
pub struct RowModel {
    pub schema: Seq<Seq<char>>,
    pub data: Seq<u8>,
}

/// The views of a sequence of column names.
pub open spec fn names_view(names: Seq<String>) -> Seq<Seq<char>> {
    names.map_values(|s: String| s@)
}

pub open spec fn row_model(r: Row) -> RowModel {
    RowModel { schema: schema_view(r.columns@), data: r.data@ }
}

pub open spec fn rows_view(rows: Seq<Row>) -> Seq<RowModel> {
    rows.map_values(|r: Row| row_model(r))
}

/// The mathematical state of a row stream: its phase, the two schema slots,
/// and the events still pending in the source.
#[verifier::ext_equal]
pub struct StreamModel {
    pub state: QueryStreamState,
    pub current: Option<Seq<Seq<char>>>,
    pub previous: Option<Seq<Seq<char>>>,
    pub events: Seq<Event>,
}

/// What one poll of the row stream produces.
pub enum PollStep {
    /// End of the current result set (or of the whole batch).
    Finished,
    /// A protocol failure, surfaced verbatim.
    Failed(Seq<char>),
    /// A row: its schema and its raw data.
    Row(Seq<Seq<char>>, Seq<u8>),
    /// A row event arrived before any schema: no schema slot is populated,
    /// so no row can be built.
    Stuck,
}

/// The model together with the outcome of one poll.
#[verifier::ext_equal]
pub struct PollResult {
    pub model: StreamModel,
    pub step: PollStep,
}

/// The model after consuming one pending event.
pub open spec fn advance(m: StreamModel) -> StreamModel {
    StreamModel { events: m.events.skip(1), ..m }
}

/// Storing a freshly seen schema: the old `current` (if any) moves into
/// `previous`, the new schema becomes `current`, and an ambiguous `MORE` is
/// confirmed into `HasNext`.
pub open spec fn store_schema(m: StreamModel, schema: Seq<Seq<char>>) -> StreamModel {
    StreamModel {
        state: if m.state == QueryStreamState::HasPotentiallyNext {
            QueryStreamState::HasNext
        } else {
            m.state
        },
        current: Some(schema),
        previous: if m.current is Some {
            m.current
        } else {
            m.previous
        },
        events: m.events,
    }
}

/// The state transition a terminator causes: `MORE` set leaves the outcome
/// ambiguous, `MORE` clear ends the stream.
pub open spec fn terminate(m: StreamModel, more: bool) -> StreamModel {
    StreamModel {
        state: if more {
            QueryStreamState::HasPotentiallyNext
        } else {
            QueryStreamState::Done
        },
        ..m
    }
}

/// One poll of the row stream: pull events until a row, a failure or
/// end-of-stream. In `HasNext` and `Done` the source is not consulted at
/// all. A failure moves the stream to `Done`: it is surfaced exactly once,
/// as the terminal item, and every later poll finishes at once.
pub open spec fn poll_step(m: StreamModel) -> PollResult
    decreases m.events.len(),
{
    if m.state == QueryStreamState::HasNext || m.state == QueryStreamState::Done {
        PollResult { model: m, step: PollStep::Finished }
    } else if m.events.len() == 0 {
        PollResult { model: m, step: PollStep::Finished }
    } else {
        match m.events[0] {
            Event::NewResultset(schema) => poll_step(store_schema(advance(m), schema)),
            Event::Row(data) => if m.current is Some {
                PollResult { model: advance(m), step: PollStep::Row(m.current->0, data) }
            } else {
                PollResult { model: advance(m), step: PollStep::Stuck }
            },
            Event::Done(d) => poll_step(terminate(advance(m), d.more)),
            Event::DoneProc(d) => poll_step(terminate(advance(m), d.more)),
            Event::DoneInProc(d) => poll_step(terminate(advance(m), d.more)),
            Event::Other => poll_step(advance(m)),
            Event::Failed(msg) => PollResult {
                model: StreamModel { state: QueryStreamState::Done, ..advance(m) },
                step: PollStep::Failed(msg),
            },
        }
    }
}

/// The schema slot that introspection reports: while the lookahead window is
/// open (`HasNext`), `current` already holds the *next* result set's schema,
/// so the schema of the result set the caller just finished is in
/// `previous`; in every other state `current` is authoritative.
pub open spec fn reported_schema(m: StreamModel) -> Option<Seq<Seq<char>>> {
    if m.state == QueryStreamState::HasNext {
        m.previous
    } else {
        m.current
    }
}

/// The caller-driven gate reset: from `HasNext` the stream goes back to
/// `Initial` and reports `true`; from any other state nothing changes and it
/// reports `false`.
pub open spec fn gate_spec(m: StreamModel) -> (StreamModel, bool) {
    if m.state == QueryStreamState::HasNext {
        (StreamModel { state: QueryStreamState::Initial, ..m }, true)
    } else {
        (m, false)
    }
}

/// What scanning for metadata does to the pending events: skip every event
/// until a result-set header (found), a terminal batch-level terminator —
/// one without `MORE` — or the end of the batch (no metadata), or a
/// failure. A batch-level terminator that carries `MORE` only ends one
/// statement's output, so the scan keeps looking.
pub enum FetchStep {
    Found(Seq<Seq<char>>),
    NoMetadata,
    Failed(Seq<char>),
}

#[verifier::ext_equal]
pub struct FetchResult {
    pub events: Seq<Event>,
    pub step: FetchStep,
}

pub open spec fn fetch_step(events: Seq<Event>) -> FetchResult
    decreases events.len(),
{
    if events.len() == 0 {
        FetchResult { events, step: FetchStep::NoMetadata }
    } else {
        match events[0] {
            Event::NewResultset(schema) => FetchResult {
                events: events.skip(1),
                step: FetchStep::Found(schema),
            },
            Event::Done(d) => if d.more {
                fetch_step(events.skip(1))
            } else {
                FetchResult { events: events.skip(1), step: FetchStep::NoMetadata }
            },
            Event::Failed(msg) => FetchResult {
                events: events.skip(1),
                step: FetchStep::Failed(msg),
            },
            _ => fetch_step(events.skip(1)),
        }
    }
}

/// The view of an optional stored schema.
pub open spec fn slot_view(slot: Option<Arc<Vec<Column>>>) -> Option<Seq<Seq<char>>> {
    match slot {
        Some(cols) => Some(schema_view(cols@)),
        None => None,
    }
}

/// Relies on std::sync::Arc::clone: the result is a new reference-counted
/// handle to the same shared schema.
#[verifier::external_body]
fn clone_schema(columns: &Arc<Vec<Column>>) -> (r: Arc<Vec<Column>>)
    ensures
        r == *columns,
{
    Arc::clone(columns)
}

/// The lookahead state machine over one batch's token source.
pub struct QueryStream {
    source: TokenSource,
    current_columns: Option<Arc<Vec<Column>>>,
    previous_columns: Option<Arc<Vec<Column>>>,
    state: QueryStreamState,
}

impl QueryStream {
    /// The mathematical state of this stream.
    pub closed spec fn model(self) -> StreamModel {
        StreamModel {
            state: self.state,
            current: slot_view(self.current_columns),
            previous: slot_view(self.previous_columns),
            events: self.source.remaining(),
        }
    }

    /// A fresh stream over one batch's events: no schema seen yet, ready to
    /// read.
    pub fn new(source: TokenSource) -> (r: QueryStream)
        ensures
            r.model() == (StreamModel {
                state: QueryStreamState::Initial,
                current: None,
                previous: None,
                events: source.remaining(),
            }),
    {
        QueryStream {
            source,
            current_columns: None,
            previous_columns: None,
            state: QueryStreamState::Initial,
        }
    }

    /// Stores a freshly seen schema, moving the old `current` into
    /// `previous` and confirming an ambiguous `MORE` into `HasNext`.
    pub fn store_columns(&mut self, columns: Vec<Column>)
        ensures
            final(self).model() == store_schema(old(self).model(), schema_view(columns@)),
    {
        let taken = self.current_columns.take();
        match taken {
            Some(cols) => {
                self.previous_columns = Some(cols);
            },
            None => {},
        }
        self.current_columns = Some(Arc::new(columns));
        match self.state {
            QueryStreamState::HasPotentiallyNext => {
                self.state = QueryStreamState::HasNext;
            },
            _ => {},
        }
        proof {
            assert(final(self).model() =~= store_schema(old(self).model(), schema_view(columns@)));
        }
    }

    /// The column names of the result set whose rows were most recently
    /// exposed to the caller: `previous` while the lookahead window is open,
    /// `current` otherwise.
    pub fn columns(&self) -> (r: Vec<String>)
        requires
            reported_schema(self.model()) is Some,
        ensures
            names_view(r@) == reported_schema(self.model())->0,
    {
        let cols: &Arc<Vec<Column>> = match self.state {
            QueryStreamState::HasNext => self.previous_columns.as_ref().unwrap(),
            _ => self.current_columns.as_ref().unwrap(),
        };
        let ghost goal = reported_schema(self.model())->0;
        let mut names: Vec<String> = Vec::new();
        let mut i: usize = 0;
        while i < cols.len()
            invariant
                i <= cols@.len(),
                goal == schema_view(cols@),
                names_view(names@) =~= goal.take(i as int),
            decreases cols@.len() - i,
        {
            let ghost names0 = names@;
            let name = cols[i].name.clone();
            proof {
                assert(cols@[i as int].name@ == goal[i as int]);
                assert(name@ == cols@[i as int].name@);
            }
            names.push(name);
            i = i + 1;
            proof {
                let k = i as int;
                assert(names_view(names0) == goal.take(k - 1));
                assert(goal.len() == cols@.len());
                assert(names0.len() == k - 1);
                assert forall|j: int| 0 <= j < k implies names_view(names@)[j] == goal.take(k)[j] by {
                    if j < k - 1 {
                        assert(names@[j] == names0[j]);
                        assert(names_view(names0)[j] == goal.take(k - 1)[j]);
                    } else {
                        assert(names@[j] == name);
                    }
                }
                assert(names_view(names@) =~= goal.take(k));
            }
        }
        proof {
            assert(names_view(names@) =~= goal);
        }
        names
    }

    /// Advances past leading non-row events until the first result-set
    /// header is seen and stored. Fails with a protocol error if the batch
    /// ends, or a terminal batch-level terminator arrives, before any
    /// header; either error — forwarded or synthesized — leaves the stream
    /// done, so later polls report end-of-stream.
    pub fn fetch_metadata(&mut self) -> (r: Result<(), Error>)
        ensures
            ({
                let fr = fetch_step(old(self).model().events);
                let skipped = StreamModel { events: fr.events, ..old(self).model() };
                let fused = StreamModel {
                    state: QueryStreamState::Done,
                    events: fr.events,
                    ..old(self).model()
                };
                match fr.step {
                    FetchStep::Found(schema) => r is Ok && final(self).model() == store_schema(
                        skipped,
                        schema,
                    ),
                    FetchStep::NoMetadata => (r matches Err(e) && error_view(e)
                        == "Never got result metadata"@) && final(self).model() == fused,
                    FetchStep::Failed(msg) => (r matches Err(e) && error_view(e) == msg)
                        && final(self).model() == fused,
                }
            }),
    {
        let ghost m0 = self.model();
        #[verifier::loop_isolation(false)]
        loop
            invariant
                self.model().state == m0.state,
                self.model().current == m0.current,
                self.model().previous == m0.previous,
                fetch_step(self.model().events) == fetch_step(m0.events),
            decreases self.model().events.len(),
        {
            let ghost mi = self.model();
            match self.source.next() {
                None => {
                    self.state = QueryStreamState::Done;
                    proof {
                        assert(final(self).model() =~= (StreamModel {
                            state: QueryStreamState::Done,
                            events: fetch_step(m0.events).events,
                            ..m0
                        }));
                    }
                    return Err(Error::Protocol("Never got result metadata".to_owned()));
                },
                Some(res) => match res {
                    Err(e) => {
                        self.state = QueryStreamState::Done;
                        proof {
                            assert(final(self).model() =~= (StreamModel {
                                state: QueryStreamState::Done,
                                events: fetch_step(m0.events).events,
                                ..m0
                            }));
                        }
                        return Err(e);
                    },
                    Ok(ReceivedToken::NewResultset(cols)) => {
                        let ghost skipped = StreamModel { events: mi.events.skip(1), ..mi };
                        proof {
                            assert(self.model() =~= skipped);
                        }
                        self.store_columns(cols);
                        proof {
                            assert(final(self).model() =~= store_schema(
                                StreamModel { events: fetch_step(m0.events).events, ..m0 },
                                schema_view(cols@),
                            ));
                        }
                        return Ok(());
                    },
                    Ok(ReceivedToken::Done(done)) => {
                        if done.status.contains(DONE_MORE) {
                            proof {
                                assert(fetch_step(self.model().events) == fetch_step(mi.events));
                            }
                        } else {
                            self.state = QueryStreamState::Done;
                            proof {
                                assert(final(self).model() =~= (StreamModel {
                                    state: QueryStreamState::Done,
                                    events: fetch_step(m0.events).events,
                                    ..m0
                                }));
                            }
                            return Err(Error::Protocol("Never got result metadata".to_owned()));
                        }
                    },
                    Ok(_) => {
                        proof {
                            assert(fetch_step(self.model().events) == fetch_step(mi.events));
                        }
                    },
                },
            }
        }
    }

    /// Pulls events until a row can be yielded, a failure is surfaced, or
    /// the current result set ends. In `HasNext` and `Done` it reports
    /// end-of-stream at once without consulting the source: `HasNext`
    /// deliberately blocks row production until the caller advances. A
    /// failure is surfaced exactly once, as the terminal item: it moves the
    /// stream to `Done`, so every later poll reports end-of-stream.
    pub fn poll_next(&mut self) -> (r: Option<Result<Row, Error>>)
        requires
            !(poll_step(old(self).model()).step is Stuck),
        ensures
            ({
                let pr = poll_step(old(self).model());
                &&& final(self).model() == pr.model
                &&& match pr.step {
                    PollStep::Finished => r is None,
                    PollStep::Failed(msg) => r matches Some(item) && item matches Err(err)
                        && error_view(err) == msg,
                    PollStep::Row(schema, data) => r matches Some(item) && item matches Ok(row)
                        && schema_view(row.columns@) == schema && row.data@ == data,
                    PollStep::Stuck => false,
                }
            }),
    {
        let ghost m0 = self.model();
        #[verifier::loop_isolation(false)]
        loop
            invariant
                poll_step(self.model()) == poll_step(m0),
            decreases self.model().events.len(),
        {
            match self.state {
                QueryStreamState::Initial | QueryStreamState::HasPotentiallyNext => {},
                _ => {
                    return None;
                },
            }
            let ghost mi = self.model();
            let token = match self.source.next() {
                None => {
                    return None;
                },
                Some(res) => match res {
                    Ok(t) => t,
                    Err(e) => {
                        self.state = QueryStreamState::Done;
                        proof {
                            assert(self.model() =~= (StreamModel {
                                state: QueryStreamState::Done,
                                ..advance(mi)
                            }));
                        }
                        return Some(Err(e));
                    },
                },
            };
            proof {
                assert(self.model() =~= advance(mi));
            }
            match token {
                ReceivedToken::NewResultset(cols) => {
                    self.store_columns(cols);
                    proof {
                        assert(self.model() =~= store_schema(advance(mi), schema_view(cols@)));
                        assert(poll_step(self.model()) == poll_step(m0));
                    }
                },
                ReceivedToken::Row(data) => {
                    proof {
                        assert(poll_step(mi).step !is Stuck);
                        assert(mi.current is Some);
                    }
                    let columns = clone_schema(self.current_columns.as_ref().unwrap());
                    return Some(Ok(Row { columns, data }));
                },
                ReceivedToken::Done(done) | ReceivedToken::DoneProc(done)
                | ReceivedToken::DoneInProc(done) => {
                    let ghost more = done.status.spec_contains(DONE_MORE);
                    if done.status.contains(DONE_MORE) {
                        self.state = QueryStreamState::HasPotentiallyNext;
                    } else {
                        self.state = QueryStreamState::Done;
                    }
                    proof {
                        assert(self.model() =~= terminate(advance(mi), more));
                        assert(poll_step(self.model()) == poll_step(m0));
                    }
                },
                ReceivedToken::Other => {
                    proof {
                        assert(poll_step(self.model()) == poll_step(m0));
                    }
                },
            }
        }
    }
}

/// The caller-facing handle: schema introspection, the explicit
/// next-result-set gate, and bulk-collection helpers atop the row stream.
pub struct QueryResult {
    stream: QueryStream,
}

impl QueryResult {
    /// The mathematical state of the underlying row stream.
    pub closed spec fn model(self) -> StreamModel {
        self.stream.model()
    }

    /// A fresh handle over one batch's events.
    pub fn new(source: TokenSource) -> (r: QueryResult)
        ensures
            r.model() == (StreamModel {
                state: QueryStreamState::Initial,
                current: None,
                previous: None,
                events: source.remaining(),
            }),
    {
        QueryResult { stream: QueryStream::new(source) }
    }

    /// See [`QueryStream::fetch_metadata`].
    pub fn fetch_metadata(&mut self) -> (r: Result<(), Error>)
        ensures
            ({
                let fr = fetch_step(old(self).model().events);
                let skipped = StreamModel { events: fr.events, ..old(self).model() };
                let fused = StreamModel {
                    state: QueryStreamState::Done,
                    events: fr.events,
                    ..old(self).model()
                };
                match fr.step {
                    FetchStep::Found(schema) => r is Ok && final(self).model() == store_schema(
                        skipped,
                        schema,
                    ),
                    FetchStep::NoMetadata => (r matches Err(e) && error_view(e)
                        == "Never got result metadata"@) && final(self).model() == fused,
                    FetchStep::Failed(msg) => (r matches Err(e) && error_view(e) == msg)
                        && final(self).model() == fused,
                }
            }),
    {
        self.stream.fetch_metadata()
    }

    /// Names of the columns of the result set whose rows were most recently
    /// exposed, in row order.
    pub fn columns(&self) -> (r: Vec<String>)
        requires
            reported_schema(self.model()) is Some,
        ensures
            names_view(r@) == reported_schema(self.model())->0,
    {
        self.stream.columns()
    }

    /// Opens the result-set gate: reports `true` exactly when the lookahead
    /// has already confirmed a next result set, resetting the stream so
    /// polling may resume there. In every other state it is a no-op that
    /// reports `false`; calling it redundantly is safe.
    pub fn next_resultset(&mut self) -> (r: bool)
        ensures
            final(self).model() == gate_spec(old(self).model()).0,
            r == gate_spec(old(self).model()).1,
    {
        match self.stream.state {
            QueryStreamState::HasNext => {
                self.stream.state = QueryStreamState::Initial;
                proof {
                    assert(final(self).model() =~= gate_spec(old(self).model()).0);
                }
                true
            },
            _ => false,
        }
    }

    /// See [`QueryStream::poll_next`].
    pub fn poll_next(&mut self) -> (r: Option<Result<Row, Error>>)
        requires
            !(poll_step(old(self).model()).step is Stuck),
        ensures
            ({
                let pr = poll_step(old(self).model());
                &&& final(self).model() == pr.model
                &&& match pr.step {
                    PollStep::Finished => r is None,
                    PollStep::Failed(msg) => r matches Some(item) && item matches Err(err)
                        && error_view(err) == msg,
                    PollStep::Row(schema, data) => r matches Some(item) && item matches Ok(row)
                        && schema_view(row.columns@) == schema && row.data@ == data,
                    PollStep::Stuck => false,
                }
            }),
    {
        self.stream.poll_next()
    }
}

/// Polling never grows the pending events, consumes at least one event
/// whenever it yields a row or a failure, and consumes at least one event
/// whenever it moves the stream into the lookahead window.
pub proof fn lemma_poll_step_progress(m: StreamModel)
    ensures
        poll_step(m).model.events.len() <= m.events.len(),
        poll_step(m).step matches PollStep::Row(schema, data) ==> poll_step(m).model.events.len()
            < m.events.len(),
        poll_step(m).step is Failed ==> poll_step(m).model.events.len() < m.events.len(),
        poll_step(m).step is Stuck ==> poll_step(m).model.events.len() < m.events.len(),
        m.state != QueryStreamState::HasNext && poll_step(m).model.state
            == QueryStreamState::HasNext ==> poll_step(m).model.events.len() < m.events.len(),
    decreases m.events.len(),
{
    if m.state == QueryStreamState::HasNext || m.state == QueryStreamState::Done {
    } else if m.events.len() == 0 {
    } else {
        match m.events[0] {
            Event::NewResultset(schema) => {
                lemma_poll_step_progress(store_schema(advance(m), schema));
            },
            Event::Done(d) => {
                lemma_poll_step_progress(terminate(advance(m), d.more));
            },
            Event::DoneProc(d) => {
                lemma_poll_step_progress(terminate(advance(m), d.more));
            },
            Event::DoneInProc(d) => {
                lemma_poll_step_progress(terminate(advance(m), d.more));
            },
            Event::Other => {
                lemma_poll_step_progress(advance(m));
            },
            _ => {},
        }
    }
}

/// How a collection of one result set ended.
pub enum CollectEnd {
    /// The result set was read to its end (or the stream was already
    /// blocked or done).
    Complete,
    /// A protocol failure cut the collection short.
    Failed(Seq<char>),
    /// A row event arrived before any schema.
    Stuck,
}

/// Repeatedly polling until the current result set is exhausted: the rows
/// yielded in order, the model left behind, and how the collection ended.
#[verifier::ext_equal]
pub struct CollectResult {
    pub model: StreamModel,
    pub rows: Seq<RowModel>,
    pub end: CollectEnd,
}

pub open spec fn collect_resultset(m: StreamModel) -> CollectResult
    decreases m.events.len(),
        via collect_resultset_decreases
{
    let pr = poll_step(m);
    match pr.step {
        PollStep::Finished => CollectResult {
            model: pr.model,
            rows: Seq::empty(),
            end: CollectEnd::Complete,
        },
        PollStep::Failed(msg) => CollectResult {
            model: pr.model,
            rows: Seq::empty(),
            end: CollectEnd::Failed(msg),
        },
        PollStep::Stuck => CollectResult {
            model: pr.model,
            rows: Seq::empty(),
            end: CollectEnd::Stuck,
        },
        PollStep::Row(schema, data) => {
            let rec = collect_resultset(pr.model);
            CollectResult {
                model: rec.model,
                rows: seq![RowModel { schema, data }] + rec.rows,
                end: rec.end,
            }
        },
    }
}

#[via_fn]
proof fn collect_resultset_decreases(m: StreamModel) {
    lemma_poll_step_progress(m);
}

/// Collecting a result set never grows the pending events, and consumes at
/// least one event whenever it leaves the stream in the lookahead window it
/// did not start in.
pub proof fn lemma_collect_resultset_progress(m: StreamModel)
    ensures
        collect_resultset(m).model.events.len() <= m.events.len(),
        m.state != QueryStreamState::HasNext && collect_resultset(m).model.state
            == QueryStreamState::HasNext ==> collect_resultset(m).model.events.len()
            < m.events.len(),
    decreases m.events.len(),
{
    lemma_poll_step_progress(m);
    let pr = poll_step(m);
    if pr.step matches PollStep::Row(schema, data) {
        lemma_collect_resultset_progress(pr.model);
    }
}

/// Collecting a whole batch: one sequence of rows per result set, in
/// issuance order.
#[verifier::ext_equal]
pub struct BatchResult {
    pub model: StreamModel,
    pub sets: Seq<Seq<RowModel>>,
    pub end: CollectEnd,
}

pub open spec fn collect_batch(m: StreamModel) -> BatchResult
    decreases m.events.len(), (if m.state == QueryStreamState::HasNext { 1int } else { 0int }),
        via collect_batch_decreases
{
    let c = collect_resultset(m);
    match c.end {
        CollectEnd::Complete => if c.model.state == QueryStreamState::HasNext {
            let rec = collect_batch(gate_spec(c.model).0);
            BatchResult { model: rec.model, sets: seq![c.rows] + rec.sets, end: rec.end }
        } else {
            BatchResult { model: c.model, sets: seq![c.rows], end: CollectEnd::Complete }
        },
        _ => BatchResult { model: c.model, sets: Seq::empty(), end: c.end },
    }
}

#[via_fn]
proof fn collect_batch_decreases(m: StreamModel) {
    lemma_collect_resultset_progress(m);
}

/// The views of collected result sets.
pub open spec fn sets_view(sets: Seq<Vec<Row>>) -> Seq<Seq<RowModel>> {
    sets.map_values(|rows: Vec<Row>| rows_view(rows@))
}

impl QueryResult {
    /// Collects the currently exposed result set to completion.
    pub fn collect_rows(&mut self) -> (r: Result<Vec<Row>, Error>)
        requires
            !(collect_resultset(old(self).model()).end is Stuck),
        ensures
            ({
                let c = collect_resultset(old(self).model());
                &&& final(self).model() == c.model
                &&& match c.end {
                    CollectEnd::Complete => r matches Ok(rows) && rows_view(rows@) == c.rows,
                    CollectEnd::Failed(msg) => r matches Err(e) && error_view(e) == msg,
                    CollectEnd::Stuck => false,
                }
            }),
    {
        let ghost m0 = self.model();
        let mut rows: Vec<Row> = Vec::new();
        #[verifier::loop_isolation(false)]
        loop
            invariant
                collect_resultset(m0).model == collect_resultset(self.model()).model,
                collect_resultset(m0).end == collect_resultset(self.model()).end,
                collect_resultset(m0).rows == rows_view(rows@) + collect_resultset(
                    self.model(),
                ).rows,
            decreases self.model().events.len(),
        {
            let ghost mi = self.model();
            proof {
                if poll_step(mi).step is Stuck {
                    assert(collect_resultset(mi).end is Stuck);
                }
                lemma_poll_step_progress(mi);
            }
            match self.poll_next() {
                None => {
                    proof {
                        assert(collect_resultset(m0).rows =~= rows_view(rows@));
                    }
                    return Ok(rows);
                },
                Some(item) => match item {
                    Ok(row) => {
                        let ghost rows0 = rows@;
                        rows.push(row);
                        proof {
                            assert(rows_view(rows@) =~= rows_view(rows0) + seq![row_model(row)]);
                            assert(row_model(row) =~= collect_resultset(mi).rows[0]);
                            assert(collect_resultset(m0).rows =~= rows_view(rows@)
                                + collect_resultset(self.model()).rows);
                        }
                    },
                    Err(e) => {
                        return Err(e);
                    },
                },
            }
        }
    }

    /// Collects every result set in the batch into memory, one row sequence
    /// per statement, in issuance order.
    pub fn into_vec(self) -> (r: Result<Vec<Vec<Row>>, Error>)
        requires
            !(collect_batch(self.model()).end is Stuck),
        ensures
            ({
                let b = collect_batch(self.model());
                match b.end {
                    CollectEnd::Complete => r matches Ok(sets) && sets_view(sets@) == b.sets,
                    CollectEnd::Failed(msg) => r matches Err(e) && error_view(e) == msg,
                    CollectEnd::Stuck => false,
                }
            }),
    {
        let ghost b0 = collect_batch(self.model());
        let mut this = self;
        let mut results: Vec<Vec<Row>> = Vec::new();
        proof {
            if collect_resultset(this.model()).end is Stuck {
                assert(collect_batch(this.model()).end is Stuck);
            }
        }
        let first = match this.collect_rows() {
            Ok(v) => v,
            Err(e) => {
                return Err(e);
            },
        };
        results.push(first);
        proof {
            assert(sets_view(results@) =~= seq![collect_resultset(self.model()).rows]);
        }
        #[verifier::loop_isolation(false)]
        loop
            invariant
                !(b0.end is Stuck),
                this.model().state == QueryStreamState::HasNext ==> {
                    let rec = collect_batch(gate_spec(this.model()).0);
                    &&& b0.model == rec.model
                    &&& b0.end == rec.end
                    &&& b0.sets == sets_view(results@) + rec.sets
                },
                this.model().state != QueryStreamState::HasNext ==> b0.model == this.model()
                    && b0.end == CollectEnd::Complete && b0.sets == sets_view(results@),
            decreases this.model().events.len(),
                (if this.model().state == QueryStreamState::HasNext { 1int } else { 0int }),
        {
            if !this.next_resultset() {
                break;
            }
            let ghost mg = this.model();
            proof {
                if collect_resultset(mg).end is Stuck {
                    assert(collect_batch(mg).end is Stuck);
                }
                lemma_collect_resultset_progress(mg);
            }
            match this.collect_rows() {
                Ok(v) => {
                    let ghost results0 = results@;
                    results.push(v);
                    proof {
                        let c = collect_resultset(mg);
                        assert(sets_view(results@) =~= sets_view(results0) + seq![c.rows]);
                        if c.model.state == QueryStreamState::HasNext {
                            assert(b0.sets =~= sets_view(results@) + collect_batch(
                                gate_spec(c.model).0,
                            ).sets);
                        } else {
                            assert(b0.sets =~= sets_view(results@));
                        }
                    }
                },
                Err(e) => {
                    return Err(e);
                },
            }
        }
        Ok(results)
    }

    /// Collects only the first (currently exposed) result set; any further
    /// result sets in the batch are never read.
    pub fn into_first(self) -> (r: Result<Vec<Row>, Error>)
        requires
            !(collect_resultset(self.model()).end is Stuck),
        ensures
            ({
                let c = collect_resultset(self.model());
                match c.end {
                    CollectEnd::Complete => r matches Ok(rows) && rows_view(rows@) == c.rows,
                    CollectEnd::Failed(msg) => r matches Err(e) && error_view(e) == msg,
                    CollectEnd::Stuck => false,
                }
            }),
    {
        let mut this = self;
        this.collect_rows()
    }
}

/// Law: the result-set gate is idempotent outside the lookahead window:
/// when the stream is not in `HasNext`, the reset reports `false`
/// and leaves the stream exactly as it was, no matter how often it is
/// tried.
pub proof fn lemma_gate_idempotent(m: StreamModel)
    requires
        m.state != QueryStreamState::HasNext,
    ensures
        gate_spec(m) == (m, false),
        gate_spec(gate_spec(m).0) == (m, false),
{
}

/// Whether an event is one of the terminator family.
pub open spec fn is_terminator(e: Event) -> bool {
    e is Done || e is DoneProc || e is DoneInProc
}

/// Whether a terminator event carries the `MORE` flag.
pub open spec fn terminator_more(e: Event) -> bool {
    match e {
        Event::Done(d) => d.more,
        Event::DoneProc(d) => d.more,
        Event::DoneInProc(d) => d.more,
        _ => false,
    }
}

/// The tail of one result set inside a well-formed batch: zero or more row
/// events, then a terminator; when the terminator's `MORE` flag leaves the
/// outcome ambiguous, what follows it (if anything) is the next result
/// set's header.
pub open spec fn resultset_segment(events: Seq<Event>) -> bool
    decreases events.len(),
{
    if events.len() == 0 {
        false
    } else {
        match events[0] {
            Event::Row(data) => resultset_segment(events.skip(1)),
            e => is_terminator(e) && (terminator_more(e) ==> events.len() == 1 || events[1]
                is NewResultset),
        }
    }
}

/// The raw data carried by the leading row events.
pub open spec fn leading_row_data(events: Seq<Event>) -> Seq<Seq<u8>>
    decreases events.len(),
{
    if events.len() == 0 {
        Seq::empty()
    } else {
        match events[0] {
            Event::Row(data) => seq![data] + leading_row_data(events.skip(1)),
            _ => Seq::empty(),
        }
    }
}

/// The raw data of a sequence of collected rows.
pub open spec fn row_data_view(rows: Seq<RowModel>) -> Seq<Seq<u8>> {
    rows.map_values(|r: RowModel| r.data)
}

/// Law: between two consecutive result-set boundaries, exactly the row
/// events are surfaced: collecting a result set whose pending events are
/// some rows followed by a terminator yields exactly those rows' payloads,
/// in order, and completes without failure.
pub proof fn lemma_rows_between_boundaries(m: StreamModel)
    requires
        m.state == QueryStreamState::Initial || m.state == QueryStreamState::HasPotentiallyNext,
        m.current is Some,
        resultset_segment(m.events),
    ensures
        collect_resultset(m).end == CollectEnd::Complete,
        collect_resultset(m).rows.len() == leading_row_data(m.events).len(),
        row_data_view(collect_resultset(m).rows) == leading_row_data(m.events),
    decreases m.events.len(),
{
    match m.events[0] {
        Event::Row(data) => {
            let m2 = advance(m);
            lemma_rows_between_boundaries(m2);
            assert(row_data_view(collect_resultset(m).rows) =~= seq![data] + row_data_view(
                collect_resultset(m2).rows,
            ));
        },
        Event::Done(d) => {
            lemma_segment_terminator(m, d.more);
        },
        Event::DoneProc(d) => {
            lemma_segment_terminator(m, d.more);
        },
        Event::DoneInProc(d) => {
            lemma_segment_terminator(m, d.more);
        },
        _ => {},
    }
}

/// The terminator case of `lemma_rows_between_boundaries`: after the
/// terminator the stream either is done, or confirms the next result set's
/// header (or the batch's end) without yielding anything.
proof fn lemma_segment_terminator(m: StreamModel, more: bool)
    requires
        m.state == QueryStreamState::Initial || m.state == QueryStreamState::HasPotentiallyNext,
        m.events.len() > 0,
        is_terminator(m.events[0]),
        terminator_more(m.events[0]) == more,
        resultset_segment(m.events),
    ensures
        collect_resultset(m).end == CollectEnd::Complete,
        collect_resultset(m).rows == Seq::<RowModel>::empty(),
        row_data_view(collect_resultset(m).rows) == leading_row_data(m.events),
{
    let m2 = terminate(advance(m), more);
    if more {
        if m.events.len() == 1 {
            assert(poll_step(m2).step is Finished);
        } else {
            let schema = m.events[1]->NewResultset_0;
            let m3 = store_schema(advance(m2), schema);
            assert(m3.state == QueryStreamState::HasNext);
            assert(poll_step(m2) == poll_step(m3));
        }
    }
    assert(row_data_view(collect_resultset(m).rows) =~= leading_row_data(m.events));
}

/// The payloads of every row event in a run of events, in order.
pub open spec fn row_data_of(events: Seq<Event>) -> Seq<Seq<u8>>
    decreases events.len(),
{
    if events.len() == 0 {
        Seq::empty()
    } else {
        match events[0] {
            Event::Row(data) => seq![data] + row_data_of(events.skip(1)),
            _ => row_data_of(events.skip(1)),
        }
    }
}

proof fn lemma_row_data_of_concat(a: Seq<Event>, b: Seq<Event>)
    ensures
        row_data_of(a + b) == row_data_of(a) + row_data_of(b),
    decreases a.len(),
{
    if a.len() == 0 {
        assert(a + b =~= b);
        assert(row_data_of(a) + row_data_of(b) =~= row_data_of(b));
    } else {
        lemma_row_data_of_concat(a.skip(1), b);
        assert((a + b).skip(1) =~= a.skip(1) + b);
        assert((a + b)[0] == a[0]);
        match a[0] {
            Event::Row(data) => {
                assert(row_data_of(a + b) =~= row_data_of(a) + row_data_of(b));
            },
            _ => {
                assert(row_data_of(a + b) =~= row_data_of(a) + row_data_of(b));
            },
        }
    }
}

/// One poll consumes a prefix of the pending events. A yielded row's data is
/// that prefix's single row event (its last); a poll that finishes or fails
/// consumed no row event at all.
pub proof fn lemma_poll_consumes_prefix(m: StreamModel)
    ensures
        ({
            let pr = poll_step(m);
            let n = m.events.len() - pr.model.events.len();
            &&& 0 <= n <= m.events.len()
            &&& pr.model.events == m.events.skip(n)
            &&& match pr.step {
                PollStep::Row(schema, data) => row_data_of(m.events.take(n)) == seq![data],
                PollStep::Finished => row_data_of(m.events.take(n)) == Seq::<Seq<u8>>::empty(),
                PollStep::Failed(msg) => row_data_of(m.events.take(n)) == Seq::<Seq<u8>>::empty(),
                PollStep::Stuck => true,
            }
        }),
    decreases m.events.len(),
{
    let pr = poll_step(m);
    let n = m.events.len() - pr.model.events.len();
    if m.state == QueryStreamState::HasNext || m.state == QueryStreamState::Done
        || m.events.len() == 0 {
        assert(m.events.skip(0) =~= m.events);
        assert(m.events.take(0) =~= Seq::<Event>::empty());
    } else {
        match m.events[0] {
            Event::Row(data) => {
                assert(m.events.take(1) =~= seq![m.events[0]]);
                assert(m.events.take(1).skip(1) =~= Seq::<Event>::empty());
                assert(row_data_of(Seq::<Event>::empty()) == Seq::<Seq<u8>>::empty());
                assert(row_data_of(m.events.take(1)) =~= seq![data]);
            },
            Event::Failed(msg) => {
                assert(m.events.take(1) =~= seq![m.events[0]]);
                assert(m.events.take(1).skip(1) =~= Seq::<Event>::empty());
                assert(row_data_of(Seq::<Event>::empty()) == Seq::<Seq<u8>>::empty());
                assert(row_data_of(m.events.take(1)) =~= Seq::<Seq<u8>>::empty());
            },
            Event::NewResultset(schema) => {
                lemma_poll_skip_prefix(m, store_schema(advance(m), schema));
            },
            Event::Done(d) => {
                lemma_poll_skip_prefix(m, terminate(advance(m), d.more));
            },
            Event::DoneProc(d) => {
                lemma_poll_skip_prefix(m, terminate(advance(m), d.more));
            },
            Event::DoneInProc(d) => {
                lemma_poll_skip_prefix(m, terminate(advance(m), d.more));
            },
            Event::Other => {
                lemma_poll_skip_prefix(m, advance(m));
            },
        }
    }
}

/// The skipping cases of `lemma_poll_consumes_prefix`: the consumed event is
/// no row event, so it adds nothing to the prefix's row data.
proof fn lemma_poll_skip_prefix(m: StreamModel, m2: StreamModel)
    requires
        m.events.len() > 0,
        !(m.events[0] is Row),
        !(m.events[0] is Failed),
        m2.events == m.events.skip(1),
        poll_step(m) == poll_step(m2),
    ensures
        ({
            let pr = poll_step(m);
            let n = m.events.len() - pr.model.events.len();
            &&& 0 <= n <= m.events.len()
            &&& pr.model.events == m.events.skip(n)
            &&& match pr.step {
                PollStep::Row(schema, data) => row_data_of(m.events.take(n)) == seq![data],
                PollStep::Finished => row_data_of(m.events.take(n)) == Seq::<Seq<u8>>::empty(),
                PollStep::Failed(msg) => row_data_of(m.events.take(n)) == Seq::<Seq<u8>>::empty(),
                PollStep::Stuck => true,
            }
        }),
    decreases m.events.len(), 0int,
{
    lemma_poll_consumes_prefix(m2);
    let pr = poll_step(m);
    let n = m.events.len() - pr.model.events.len();
    let n2 = m2.events.len() - pr.model.events.len();
    assert(m.events.skip(n) =~= m2.events.skip(n2));
    assert(m.events.take(n).skip(1) =~= m2.events.take(n2));
    assert(m.events.take(n)[0] == m.events[0]);
    assert(row_data_of(m.events.take(n)) == row_data_of(m2.events.take(n2)));
}

/// Law: over any event sequence whatever, collecting a result set consumes
/// a prefix of the pending events and — unless it got stuck — the rows it
/// yields are exactly that prefix's row events, in order.
pub proof fn lemma_rows_match_consumed_row_events(m: StreamModel)
    ensures
        ({
            let c = collect_resultset(m);
            let n = m.events.len() - c.model.events.len();
            &&& 0 <= n <= m.events.len()
            &&& c.model.events == m.events.skip(n)
            &&& !(c.end is Stuck) ==> row_data_view(c.rows) == row_data_of(m.events.take(n))
        }),
    decreases m.events.len(),
{
    lemma_poll_consumes_prefix(m);
    lemma_poll_step_progress(m);
    let pr = poll_step(m);
    let c = collect_resultset(m);
    let n = m.events.len() - c.model.events.len();
    match pr.step {
        PollStep::Row(schema, data) => {
            lemma_rows_match_consumed_row_events(pr.model);
            let rec = collect_resultset(pr.model);
            let n1 = m.events.len() - pr.model.events.len();
            let n2 = pr.model.events.len() - rec.model.events.len();
            assert(m.events.skip(n) =~= pr.model.events.skip(n2));
            if !(c.end is Stuck) {
                lemma_row_data_of_concat(m.events.take(n1), pr.model.events.take(n2));
                assert(m.events.take(n) =~= m.events.take(n1) + pr.model.events.take(n2));
                assert(row_data_view(c.rows) =~= seq![data] + row_data_view(rec.rows));
                assert(row_data_view(c.rows) =~= row_data_of(m.events.take(n)));
            }
        },
        _ => {
            assert(row_data_view(c.rows) =~= Seq::<Seq<u8>>::empty());
        },
    }
}

/// The schema slot after a run of events has been taken in: the schema of
/// the last result-set header in the run, or the starting slot when the
/// run has none.
pub open spec fn schema_after(
    events: Seq<Event>,
    slot: Option<Seq<Seq<char>>>,
) -> Option<Seq<Seq<char>>>
    decreases events.len(),
{
    if events.len() == 0 {
        slot
    } else {
        schema_after(
            events.skip(1),
            match events[0] {
                Event::NewResultset(schema) => Some(schema),
                _ => slot,
            },
        )
    }
}

/// Law: a yielded row carries the schema of the nearest preceding
/// result-set header among the events that poll consumed, or the schema
/// already current when the poll consumed no header.
pub proof fn lemma_row_schema_nearest(m: StreamModel)
    requires
        poll_step(m).step matches PollStep::Row(schema, data),
    ensures
        ({
            let n = m.events.len() - poll_step(m).model.events.len();
            &&& 1 <= n <= m.events.len()
            &&& poll_step(m).step matches PollStep::Row(schema, data) ==> m.events[n - 1]
                == Event::Row(data) && Some(schema) == schema_after(m.events.take(n - 1), m.current)
        }),
    decreases m.events.len(), 1int,
{
    let pr = poll_step(m);
    let n = m.events.len() - pr.model.events.len();
    match m.events[0] {
        Event::Row(data) => {
            assert(m.events.take(0) =~= Seq::<Event>::empty());
        },
        Event::NewResultset(schema0) => {
            let m2 = store_schema(advance(m), schema0);
            lemma_row_schema_nearest(m2);
            let n2 = m2.events.len() - poll_step(m2).model.events.len();
            assert(m.events.take(n - 1).skip(1) =~= m2.events.take(n2 - 1));
            assert(m.events.take(n - 1)[0] == m.events[0]);
        },
        Event::Done(d) => {
            lemma_row_schema_step(m, terminate(advance(m), d.more));
        },
        Event::DoneProc(d) => {
            lemma_row_schema_step(m, terminate(advance(m), d.more));
        },
        Event::DoneInProc(d) => {
            lemma_row_schema_step(m, terminate(advance(m), d.more));
        },
        Event::Other => {
            lemma_row_schema_step(m, advance(m));
        },
        _ => {},
    }
}

/// The skipping cases of `lemma_row_schema_nearest`: a consumed event that
/// is no header leaves the tracked slot alone.
proof fn lemma_row_schema_step(m: StreamModel, m2: StreamModel)
    requires
        m.events.len() > 0,
        !(m.events[0] is NewResultset),
        m2.events == m.events.skip(1),
        m2.current == m.current,
        poll_step(m) == poll_step(m2),
        poll_step(m).step matches PollStep::Row(schema, data),
    ensures
        ({
            let n = m.events.len() - poll_step(m).model.events.len();
            &&& 1 <= n <= m.events.len()
            &&& poll_step(m).step matches PollStep::Row(schema, data) ==> m.events[n - 1]
                == Event::Row(data) && Some(schema) == schema_after(m.events.take(n - 1), m.current)
        }),
    decreases m.events.len(), 0int,
{
    lemma_row_schema_nearest(m2);
    let n = m.events.len() - poll_step(m).model.events.len();
    let n2 = m2.events.len() - poll_step(m2).model.events.len();
    assert(m.events.take(n - 1).skip(1) =~= m2.events.take(n2 - 1));
    assert(m.events.take(n - 1)[0] == m.events[0]);
}

/// Law: once a schema is current, no poll can get stuck, and a schema stays
/// current whatever comes: every later row event can be turned into a row.
pub proof fn lemma_schema_prevents_stuck(m: StreamModel)
    requires
        m.current is Some,
    ensures
        !(poll_step(m).step is Stuck),
        poll_step(m).model.current is Some,
    decreases m.events.len(),
{
    if m.state == QueryStreamState::HasNext || m.state == QueryStreamState::Done {
    } else if m.events.len() == 0 {
    } else {
        match m.events[0] {
            Event::NewResultset(schema) => {
                lemma_schema_prevents_stuck(store_schema(advance(m), schema));
            },
            Event::Done(d) => {
                lemma_schema_prevents_stuck(terminate(advance(m), d.more));
            },
            Event::DoneProc(d) => {
                lemma_schema_prevents_stuck(terminate(advance(m), d.more));
            },
            Event::DoneInProc(d) => {
                lemma_schema_prevents_stuck(terminate(advance(m), d.more));
            },
            Event::Other => {
                lemma_schema_prevents_stuck(advance(m));
            },
            _ => {},
        }
    }
}

/// Law: once a schema is current, collecting the exposed result set cannot
/// get stuck, and leaves a schema current.
pub proof fn lemma_schema_prevents_stuck_collect(m: StreamModel)
    requires
        m.current is Some,
    ensures
        !(collect_resultset(m).end is Stuck),
        collect_resultset(m).model.current is Some,
    decreases m.events.len(),
{
    lemma_schema_prevents_stuck(m);
    lemma_poll_step_progress(m);
    let pr = poll_step(m);
    if pr.step matches PollStep::Row(schema, data) {
        lemma_schema_prevents_stuck_collect(pr.model);
    }
}

/// Law: once a schema is current — as it is right after metadata has been
/// fetched — collecting the whole batch cannot get stuck.
pub proof fn lemma_schema_prevents_stuck_batch(m: StreamModel)
    requires
        m.current is Some,
    ensures
        !(collect_batch(m).end is Stuck),
    decreases m.events.len(), (if m.state == QueryStreamState::HasNext { 1int } else { 0int }),
{
    lemma_schema_prevents_stuck_collect(m);
    lemma_collect_resultset_progress(m);
    let c = collect_resultset(m);
    if c.end is Complete && c.model.state == QueryStreamState::HasNext {
        lemma_schema_prevents_stuck_batch(gate_spec(c.model).0);
    }
}

} // verus!
