use tds_results::execute::ExecuteResult;
use tds_results::source::TokenSource;
use tds_results::token::{Column, Done, DoneStatus, Error, ReceivedToken, DONE_FINAL, DONE_MORE};

fn done(bits: u16, rows: u64) -> Done {
    Done { status: DoneStatus { bits }, done_rows: rows }
}

fn source(events: Vec<Result<ReceivedToken, Error>>) -> TokenSource {
    TokenSource::new(events)
}

#[test]
fn counts_are_yielded_per_statement_and_summed() {
    let events = vec![
        Ok(ReceivedToken::DoneInProc(done(0, 1))),
        Ok(ReceivedToken::DoneInProc(done(0, 2))),
        Ok(ReceivedToken::DoneProc(done(DONE_FINAL, 0))),
    ];
    let mut stream = ExecuteResult::new(source(events));
    assert_eq!(stream.poll_next().unwrap().unwrap(), 1);
    assert_eq!(stream.poll_next().unwrap().unwrap(), 2);
    assert!(stream.poll_next().is_none());

    let events = vec![
        Ok(ReceivedToken::DoneInProc(done(0, 1))),
        Ok(ReceivedToken::DoneInProc(done(0, 2))),
        Ok(ReceivedToken::DoneProc(done(DONE_FINAL, 0))),
    ];
    let total = ExecuteResult::new(source(events)).total().unwrap();
    assert_eq!(total, 3);
}

#[test]
fn procedure_terminator_without_final_yields_its_count() {
    let events = vec![
        Ok(ReceivedToken::DoneProc(done(DONE_MORE, 4))),
        Ok(ReceivedToken::DoneProc(done(DONE_FINAL, 9))),
    ];
    let mut stream = ExecuteResult::new(source(events));
    assert_eq!(stream.poll_next().unwrap().unwrap(), 4);
    assert!(stream.poll_next().is_none());
}

#[test]
fn plain_done_ends_stream_without_yielding_its_count() {
    let events = vec![
        Ok(ReceivedToken::DoneInProc(done(0, 5))),
        Ok(ReceivedToken::Done(done(0, 7))),
    ];
    let total = ExecuteResult::new(source(events)).total().unwrap();
    assert_eq!(total, 5);
}

#[test]
fn non_terminator_events_are_skipped_by_count_stream() {
    let events = vec![
        Ok(ReceivedToken::Other),
        Ok(ReceivedToken::NewResultset(vec![Column { name: "a".to_owned() }])),
        Ok(ReceivedToken::Row(vec![1])),
        Ok(ReceivedToken::DoneInProc(done(0, 2))),
        Ok(ReceivedToken::Done(done(0, 0))),
    ];
    let total = ExecuteResult::new(source(events)).total().unwrap();
    assert_eq!(total, 2);
}

#[test]
fn empty_batch_totals_zero() {
    let total = ExecuteResult::new(source(vec![])).total().unwrap();
    assert_eq!(total, 0);
}

#[test]
fn failure_cuts_the_count_stream_short() {
    let events = vec![
        Ok(ReceivedToken::DoneInProc(done(0, 3))),
        Err(Error::Protocol("connection reset".to_owned())),
        Ok(ReceivedToken::DoneInProc(done(0, 4))),
    ];
    match ExecuteResult::new(source(events)).total() {
        Err(Error::Protocol(msg)) => assert_eq!(msg, "connection reset"),
        Ok(_) => panic!("error was swallowed"),
    }
}

#[test]
fn count_stream_is_exhausted_after_an_error() {
    let events = vec![
        Err(Error::Protocol("connection reset".to_owned())),
        Ok(ReceivedToken::DoneInProc(done(0, 5))),
    ];
    let mut stream = ExecuteResult::new(source(events));
    match stream.poll_next() {
        Some(Err(Error::Protocol(msg))) => assert_eq!(msg, "connection reset"),
        _ => panic!("error was not surfaced"),
    }
    assert!(stream.poll_next().is_none());
    assert!(stream.poll_next().is_none());
    assert_eq!(stream.total().unwrap(), 0);
}

#[test]
fn total_saturates_at_the_machine_limit() {
    let events = vec![
        Ok(ReceivedToken::DoneInProc(done(0, u64::MAX))),
        Ok(ReceivedToken::DoneInProc(done(0, 2))),
        Ok(ReceivedToken::DoneProc(done(DONE_FINAL, 0))),
    ];
    let total = ExecuteResult::new(source(events)).total().unwrap();
    assert_eq!(total, u64::MAX);
}
