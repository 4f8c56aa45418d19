//! The token source: an ordered, fallible, finite sequence of protocol
//! events for one executed batch.
//!
//! The source is consumed item by item and is specified by the sequence of
//! [`Event`] values still to come. A scripted in-memory sequence is the one
//! implementation; adapters that drain an asynchronous connection feed their
//! events into it before the multiplexers run.

use vstd::prelude::*;

use crate::token::{Error, Event, ReceivedToken, event_view};

verus! {

/// An ordered, fallible sequence of decoded protocol events, consumed from
/// the front.
pub struct TokenSource {
    /// The pending items, stored back to front so that the next item to hand
    /// out is the last element.
    items: Vec<Result<ReceivedToken, Error>>,
}

impl TokenSource {
    /// The events still to be handed out, in the order they will come.
    pub closed spec fn remaining(self) -> Seq<Event> {
        self.items@.reverse().map_values(|e: Result<ReceivedToken, Error>| event_view(e))
    }

    /// Builds a source that will hand out `events` in order.
    pub fn new(events: Vec<Result<ReceivedToken, Error>>) -> (s: TokenSource)
        ensures
            s.remaining() == events@.map_values(
                |e: Result<ReceivedToken, Error>| event_view(e),
            ),
    {
        let ghost orig = events@;
        let mut forward = events;
        let mut backward: Vec<Result<ReceivedToken, Error>> = Vec::new();
        while forward.len() > 0
            invariant
                orig == forward@ + backward@.reverse(),
            decreases forward.len(),
        {
            let ghost fwd0 = forward@;
            let ghost bwd0 = backward@;
            let e = forward.pop().unwrap();
            backward.push(e);
            proof {
                assert(backward@.reverse() =~= seq![e] + bwd0.reverse());
                assert(forward@ + backward@.reverse() =~= fwd0 + bwd0.reverse());
            }
        }
        let s = TokenSource { items: backward };
        proof {
            assert(s.items@.reverse() =~= orig);
            assert(s.remaining() =~= orig.map_values(
                |e: Result<ReceivedToken, Error>| event_view(e),
            ));
        }
        s
    }

    /// Hands out the next event, or `None` once the sequence is exhausted.
    pub fn next(&mut self) -> (r: Option<Result<ReceivedToken, Error>>)
        ensures
            old(self).remaining().len() == 0 ==> r is None && final(self).remaining()
                == old(self).remaining(),
            old(self).remaining().len() > 0 ==> {
                &&& r matches Some(e) && event_view(e) == old(self).remaining()[0]
                &&& final(self).remaining() == old(self).remaining().skip(1)
            },
    {
        let ghost items0 = self.items@;
        let r = self.items.pop();
        proof {
            if items0.len() > 0 {
                assert(items0.reverse()[0] == items0[items0.len() - 1]);
                assert(self.items@.reverse() =~= items0.reverse().skip(1));
                assert(self.remaining() =~= old(self).remaining().skip(1));
            }
        }
        r
    }
}

} // verus!
