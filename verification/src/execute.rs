//! The count multiplexer for row-count-only batches: it reads the token
//! source directly, skips everything but the terminator family, yields the
//! affected-row count carried by per-statement terminators, and ends on a
//! batch-level terminator or on a final procedure terminator — whose own
//! counts are not surfaced. A failure is surfaced exactly once, as the
//! terminal item: afterwards the stream reports end-of-stream.

use vstd::prelude::*;

use crate::source::TokenSource;
use crate::token::{Error, Event, ReceivedToken, error_view, DONE_FINAL};

verus! {

/// What one poll of the count stream produces.
pub enum ExecStep {
    /// End of the count stream.
    End,
    /// One statement's affected-row count.
    Count(u64),
    /// A protocol failure, surfaced verbatim.
    Failed(Seq<char>),
}

/// The events left after one poll, together with what the poll produced.
#[verifier::ext_equal]
pub struct ExecPoll {
    pub events: Seq<Event>,
    pub step: ExecStep,
}

/// One poll of the count stream. A procedure terminator with `FINAL` set
/// ends the stream; any other procedure or in-procedure terminator yields
/// its count; a batch-level terminator ends the stream without yielding its
/// count; every other event kind is skipped.
pub open spec fn exec_poll(events: Seq<Event>) -> ExecPoll
    decreases events.len(),
{
    if events.len() == 0 {
        ExecPoll { events, step: ExecStep::End }
    } else {
        let rest = events.skip(1);
        match events[0] {
            Event::DoneProc(d) => if d.fin {
                ExecPoll { events: rest, step: ExecStep::End }
            } else {
                ExecPoll { events: rest, step: ExecStep::Count(d.rows) }
            },
            Event::DoneInProc(d) => ExecPoll { events: rest, step: ExecStep::Count(d.rows) },
            Event::Done(d) => ExecPoll { events: rest, step: ExecStep::End },
            Event::Failed(msg) => ExecPoll { events: rest, step: ExecStep::Failed(msg) },
            _ => exec_poll(rest),
        }
    }
}

/// Polling never grows the pending events, and consumes at least one event
/// whenever it yields a count or a failure.
proof fn lemma_exec_poll_progress(events: Seq<Event>)
    ensures
        exec_poll(events).events.len() <= events.len(),
        exec_poll(events).step matches ExecStep::Count(n) ==> exec_poll(events).events.len()
            < events.len(),
        exec_poll(events).step is Failed ==> exec_poll(events).events.len() < events.len(),
    decreases events.len(),
{
    if events.len() > 0 {
        match events[0] {
            Event::NewResultset(schema) => {
                lemma_exec_poll_progress(events.skip(1));
            },
            Event::Row(data) => {
                lemma_exec_poll_progress(events.skip(1));
            },
            Event::Other => {
                lemma_exec_poll_progress(events.skip(1));
            },
            _ => {},
        }
    }
}

/// The fold over the whole count stream: the sum of every yielded count and
/// the failure that cut the stream short, if any.
#[verifier::ext_equal]
pub struct TotalResult {
    pub sum: int,
    pub error: Option<Seq<char>>,
}

pub open spec fn exec_total(events: Seq<Event>) -> TotalResult
    decreases events.len(),
        via exec_total_decreases
{
    let p = exec_poll(events);
    match p.step {
        ExecStep::End => TotalResult { sum: 0, error: None },
        ExecStep::Failed(msg) => TotalResult { sum: 0, error: Some(msg) },
        ExecStep::Count(n) => {
            let rec = exec_total(p.events);
            TotalResult { sum: n + rec.sum, error: rec.error }
        },
    }
}

#[via_fn]
proof fn exec_total_decreases(events: Seq<Event>) {
    lemma_exec_poll_progress(events);
}

/// A sum clamped into the range of the counts' machine type.
pub open spec fn saturate(sum: int) -> u64 {
    if sum >= u64::MAX {
        u64::MAX
    } else if sum <= 0 {
        0u64
    } else {
        sum as u64
    }
}

/// The sum of yielded counts is never negative.
proof fn lemma_exec_total_nonneg(events: Seq<Event>)
    ensures
        exec_total(events).sum >= 0,
    decreases events.len(),
{
    lemma_exec_poll_progress(events);
    let p = exec_poll(events);
    if p.step matches ExecStep::Count(n) {
        lemma_exec_total_nonneg(p.events);
    }
}

/// The stream of per-statement affected-row counts of one executed batch.
pub struct ExecuteResult {
    source: TokenSource,
    failed: bool,
}

impl ExecuteResult {
    /// The events still pending in the source.
    pub closed spec fn events(self) -> Seq<Event> {
        self.source.remaining()
    }

    /// Whether a failure has been surfaced: the stream is then exhausted
    /// and every later poll reports end-of-stream.
    pub closed spec fn failed(self) -> bool {
        self.failed
    }

    /// A fresh count stream over one batch's events.
    pub fn new(source: TokenSource) -> (r: ExecuteResult)
        ensures
            r.events() == source.remaining(),
            !r.failed(),
    {
        ExecuteResult { source, failed: false }
    }

    /// The next affected-row count, end-of-stream, or a failure. A failure
    /// is surfaced exactly once, as the terminal item: it marks the stream
    /// exhausted, so every later poll reports end-of-stream.
    pub fn poll_next(&mut self) -> (r: Option<Result<u64, Error>>)
        ensures
            old(self).failed() ==> r is None && final(self).failed() && final(self).events()
                == old(self).events(),
            !old(self).failed() ==> ({
                let p = exec_poll(old(self).events());
                &&& final(self).events() == p.events
                &&& final(self).failed() == (p.step is Failed)
                &&& match p.step {
                    ExecStep::End => r is None,
                    ExecStep::Count(n) => r matches Some(item) && item matches Ok(c) && c == n,
                    ExecStep::Failed(msg) => r matches Some(item) && item matches Err(e)
                        && error_view(e) == msg,
                }
            }),
    {
        if self.failed {
            return None;
        }
        let ghost e0 = self.events();
        #[verifier::loop_isolation(false)]
        loop
            invariant
                !self.failed(),
                exec_poll(self.events()) == exec_poll(e0),
            decreases self.events().len(),
        {
            let token = match self.source.next() {
                None => {
                    return None;
                },
                Some(res) => match res {
                    Ok(t) => t,
                    Err(e) => {
                        self.failed = true;
                        return Some(Err(e));
                    },
                },
            };
            match token {
                ReceivedToken::DoneProc(done) => {
                    if done.status.contains(DONE_FINAL) {
                        return None;
                    }
                    return Some(Ok(done.done_rows));
                },
                ReceivedToken::DoneInProc(done) => {
                    return Some(Ok(done.done_rows));
                },
                ReceivedToken::Done(_) => {
                    return None;
                },
                _ => {
                    proof {
                        assert(exec_poll(self.events()) == exec_poll(e0));
                    }
                },
            }
        }
    }

    /// Consumes the stream, folding the yielded counts into their sum,
    /// saturating at the machine limit; a failure is surfaced in place of
    /// the sum. On a stream already exhausted by a failure the sum is zero.
    pub fn total(self) -> (r: Result<u64, Error>)
        ensures
            ({
                let t = exec_total(self.events());
                &&& self.failed() ==> (r matches Ok(sum) && sum == 0)
                &&& !self.failed() ==> match t.error {
                    None => r matches Ok(sum) && sum == saturate(t.sum),
                    Some(msg) => r matches Err(e) && error_view(e) == msg,
                }
            }),
    {
        let mut this = self;
        if this.failed {
            return Ok(0);
        }
        let ghost e0 = this.events();
        let mut acc: u64 = 0;
        proof {
            lemma_exec_total_nonneg(e0);
        }
        #[verifier::loop_isolation(false)]
        loop
            invariant
                !this.failed(),
                saturate(exec_total(e0).sum) == saturate(acc + exec_total(this.events()).sum),
                exec_total(e0).error == exec_total(this.events()).error,
                exec_total(this.events()).sum >= 0,
            decreases this.events().len(),
        {
            let ghost ei = this.events();
            proof {
                lemma_exec_poll_progress(ei);
                lemma_exec_total_nonneg(exec_poll(ei).events);
            }
            match this.poll_next() {
                None => {
                    return Ok(acc);
                },
                Some(item) => match item {
                    Ok(n) => {
                        if n > u64::MAX - acc {
                            acc = u64::MAX;
                        } else {
                            acc = acc + n;
                        }
                    },
                    Err(e) => {
                        return Err(e);
                    },
                },
            }
        }
    }
}

} // verus!
