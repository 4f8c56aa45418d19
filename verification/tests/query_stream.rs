use tds_results::query::{QueryResult, QueryStream, Row};
use tds_results::source::TokenSource;
use tds_results::token::{Column, Done, DoneStatus, Error, ReceivedToken, DONE_MORE};

fn schema(names: &[&str]) -> Vec<Column> {
    names.iter().map(|n| Column { name: (*n).to_owned() }).collect()
}

fn done(bits: u16, rows: u64) -> Done {
    Done { status: DoneStatus { bits }, done_rows: rows }
}

fn source(events: Vec<Result<ReceivedToken, Error>>) -> TokenSource {
    TokenSource::new(events)
}

fn row_values(rows: &[Row]) -> Vec<Vec<u8>> {
    rows.iter().map(|r| r.data.clone()).collect()
}

#[test]
fn single_resultset_yields_one_row_then_ends() {
    let events = vec![
        Ok(ReceivedToken::NewResultset(schema(&["a"]))),
        Ok(ReceivedToken::Row(vec![1])),
        Ok(ReceivedToken::Done(done(0, 0))),
    ];
    let mut result = QueryResult::new(source(events));
    let rows = result.collect_rows().unwrap();
    assert_eq!(row_values(&rows), vec![vec![1]]);
    assert!(!result.next_resultset());
}

#[test]
fn two_resultsets_split_by_gate() {
    let events = vec![
        Ok(ReceivedToken::NewResultset(schema(&["a"]))),
        Ok(ReceivedToken::Row(vec![1])),
        Ok(ReceivedToken::Done(done(DONE_MORE, 0))),
        Ok(ReceivedToken::NewResultset(schema(&["b"]))),
        Ok(ReceivedToken::Row(vec![2])),
        Ok(ReceivedToken::Done(done(0, 0))),
    ];
    let mut result = QueryResult::new(source(events));
    let first = result.collect_rows().unwrap();
    assert_eq!(row_values(&first), vec![vec![1]]);
    assert_eq!(result.columns(), vec!["a".to_owned()]);
    assert!(result.next_resultset());
    let second = result.collect_rows().unwrap();
    assert_eq!(row_values(&second), vec![vec![2]]);
    assert_eq!(result.columns(), vec!["b".to_owned()]);
    assert!(!result.next_resultset());
}

#[test]
fn ambiguous_more_resolved_negatively() {
    let events = vec![
        Ok(ReceivedToken::NewResultset(schema(&["a"]))),
        Ok(ReceivedToken::Row(vec![1])),
        Ok(ReceivedToken::Done(done(DONE_MORE, 0))),
        Ok(ReceivedToken::Done(done(0, 0))),
    ];
    let mut result = QueryResult::new(source(events));
    let rows = result.collect_rows().unwrap();
    assert_eq!(row_values(&rows), vec![vec![1]]);
    assert!(!result.next_resultset());
    assert!(result.poll_next().is_none());
}

#[test]
fn fetch_metadata_fails_when_batch_ends_first() {
    let events = vec![Ok(ReceivedToken::Done(done(0, 0)))];
    let mut result = QueryResult::new(source(events));
    match result.fetch_metadata() {
        Err(Error::Protocol(msg)) => assert_eq!(msg, "Never got result metadata"),
        Ok(()) => panic!("metadata reported even though none was sent"),
    }
}

#[test]
fn fetch_metadata_fails_on_empty_batch() {
    let mut result = QueryResult::new(source(vec![]));
    match result.fetch_metadata() {
        Err(Error::Protocol(msg)) => assert_eq!(msg, "Never got result metadata"),
        Ok(()) => panic!("metadata reported even though none was sent"),
    }
}

#[test]
fn fetch_metadata_stores_first_schema() {
    let events = vec![
        Ok(ReceivedToken::Other),
        Ok(ReceivedToken::NewResultset(schema(&["id", "name"]))),
        Ok(ReceivedToken::Row(vec![7])),
        Ok(ReceivedToken::Done(done(0, 0))),
    ];
    let mut result = QueryResult::new(source(events));
    result.fetch_metadata().unwrap();
    assert_eq!(result.columns(), vec!["id".to_owned(), "name".to_owned()]);
    let rows = result.collect_rows().unwrap();
    assert_eq!(row_values(&rows), vec![vec![7]]);
}

#[test]
fn rows_carry_their_resultset_schema() {
    let events = vec![
        Ok(ReceivedToken::NewResultset(schema(&["a"]))),
        Ok(ReceivedToken::Row(vec![1])),
        Ok(ReceivedToken::Done(done(DONE_MORE, 0))),
        Ok(ReceivedToken::NewResultset(schema(&["b"]))),
        Ok(ReceivedToken::Row(vec![2])),
        Ok(ReceivedToken::Done(done(0, 0))),
    ];
    let mut result = QueryResult::new(source(events));
    let first = result.collect_rows().unwrap();
    assert_eq!(first[0].columns[0].name, "a");
    assert!(result.next_resultset());
    let second = result.collect_rows().unwrap();
    assert_eq!(second[0].columns[0].name, "b");
}

#[test]
fn into_vec_collects_all_resultsets_in_order() {
    let events = vec![
        Ok(ReceivedToken::NewResultset(schema(&["a"]))),
        Ok(ReceivedToken::Row(vec![1])),
        Ok(ReceivedToken::Row(vec![2])),
        Ok(ReceivedToken::Done(done(DONE_MORE, 0))),
        Ok(ReceivedToken::NewResultset(schema(&["b"]))),
        Ok(ReceivedToken::Row(vec![3])),
        Ok(ReceivedToken::Done(done(0, 0))),
    ];
    let result = QueryResult::new(source(events));
    let sets = result.into_vec().unwrap();
    assert_eq!(sets.len(), 2);
    assert_eq!(row_values(&sets[0]), vec![vec![1], vec![2]]);
    assert_eq!(row_values(&sets[1]), vec![vec![3]]);
}

#[test]
fn into_first_reads_only_the_first_resultset() {
    let events = vec![
        Ok(ReceivedToken::NewResultset(schema(&["a"]))),
        Ok(ReceivedToken::Row(vec![1])),
        Ok(ReceivedToken::Done(done(DONE_MORE, 0))),
        Ok(ReceivedToken::NewResultset(schema(&["b"]))),
        Ok(ReceivedToken::Row(vec![2])),
        Ok(ReceivedToken::Done(done(0, 0))),
    ];
    let result = QueryResult::new(source(events));
    let rows = result.into_first().unwrap();
    assert_eq!(row_values(&rows), vec![vec![1]]);
}

#[test]
fn protocol_error_is_surfaced_verbatim() {
    let events = vec![
        Ok(ReceivedToken::NewResultset(schema(&["a"]))),
        Ok(ReceivedToken::Row(vec![1])),
        Err(Error::Protocol("connection reset".to_owned())),
    ];
    let mut result = QueryResult::new(source(events));
    match result.collect_rows() {
        Err(Error::Protocol(msg)) => assert_eq!(msg, "connection reset"),
        Ok(_) => panic!("error was swallowed"),
    }
}

#[test]
fn unknown_events_are_skipped_without_effect() {
    let events = vec![
        Ok(ReceivedToken::Other),
        Ok(ReceivedToken::NewResultset(schema(&["a"]))),
        Ok(ReceivedToken::Other),
        Ok(ReceivedToken::Row(vec![1])),
        Ok(ReceivedToken::Other),
        Ok(ReceivedToken::Done(done(0, 0))),
    ];
    let result = QueryResult::new(source(events));
    let rows = result.into_first().unwrap();
    assert_eq!(row_values(&rows), vec![vec![1]]);
}

#[test]
fn gate_is_a_safe_no_op_before_exhaustion_and_after_end() {
    let events = vec![
        Ok(ReceivedToken::NewResultset(schema(&["a"]))),
        Ok(ReceivedToken::Row(vec![1])),
        Ok(ReceivedToken::Done(done(0, 0))),
    ];
    let mut result = QueryResult::new(source(events));
    assert!(!result.next_resultset());
    assert!(!result.next_resultset());
    let rows = result.collect_rows().unwrap();
    assert_eq!(row_values(&rows), vec![vec![1]]);
    assert!(!result.next_resultset());
    assert!(!result.next_resultset());
}

#[test]
fn polling_after_done_returns_end_of_stream() {
    let events = vec![
        Ok(ReceivedToken::NewResultset(schema(&["a"]))),
        Ok(ReceivedToken::Done(done(0, 0))),
        Ok(ReceivedToken::Row(vec![9])),
    ];
    let mut result = QueryResult::new(source(events));
    assert!(result.collect_rows().unwrap().is_empty());
    assert!(result.poll_next().is_none());
    assert!(result.poll_next().is_none());
}

#[test]
fn query_stream_reports_previous_schema_in_lookahead_window() {
    let events = vec![
        Ok(ReceivedToken::NewResultset(schema(&["a"]))),
        Ok(ReceivedToken::Row(vec![1])),
        Ok(ReceivedToken::Done(done(DONE_MORE, 0))),
        Ok(ReceivedToken::NewResultset(schema(&["b"]))),
        Ok(ReceivedToken::Row(vec![2])),
        Ok(ReceivedToken::Done(done(0, 0))),
    ];
    let mut stream = QueryStream::new(source(events));
    let first = stream.poll_next().unwrap().unwrap();
    assert_eq!(first.data, vec![1]);
    // The poll after the last row runs into the lookahead: the next schema
    // is already stored, yet the reported columns stay with the result set
    // just read.
    assert!(stream.poll_next().is_none());
    assert_eq!(stream.columns(), vec!["a".to_owned()]);
}

#[test]
fn store_columns_moves_current_to_previous() {
    let mut stream = QueryStream::new(source(vec![]));
    stream.store_columns(schema(&["a"]));
    assert_eq!(stream.columns(), vec!["a".to_owned()]);
    stream.store_columns(schema(&["b"]));
    assert_eq!(stream.columns(), vec!["b".to_owned()]);
}

#[test]
fn fetch_metadata_skips_procedure_terminators() {
    let events = vec![
        Ok(ReceivedToken::DoneProc(done(0, 0))),
        Ok(ReceivedToken::DoneInProc(done(0, 0))),
        Ok(ReceivedToken::NewResultset(schema(&["a"]))),
        Ok(ReceivedToken::Row(vec![1])),
        Ok(ReceivedToken::Done(done(0, 0))),
    ];
    let mut result = QueryResult::new(source(events));
    result.fetch_metadata().unwrap();
    assert_eq!(result.columns(), vec!["a".to_owned()]);
}

#[test]
fn fetch_metadata_propagates_source_failures() {
    let events = vec![
        Ok(ReceivedToken::Other),
        Err(Error::Protocol("connection reset".to_owned())),
        Ok(ReceivedToken::NewResultset(schema(&["a"]))),
    ];
    let mut result = QueryResult::new(source(events));
    match result.fetch_metadata() {
        Err(Error::Protocol(msg)) => assert_eq!(msg, "connection reset"),
        Ok(()) => panic!("error was swallowed"),
    }
}

#[test]
fn fetch_metadata_skips_done_that_carries_more() {
    let events = vec![
        Ok(ReceivedToken::Done(done(DONE_MORE, 1))),
        Ok(ReceivedToken::NewResultset(schema(&["a"]))),
        Ok(ReceivedToken::Row(vec![1])),
        Ok(ReceivedToken::Done(done(0, 0))),
    ];
    let mut result = QueryResult::new(source(events));
    result.fetch_metadata().unwrap();
    assert_eq!(result.columns(), vec!["a".to_owned()]);
    let rows = result.collect_rows().unwrap();
    assert_eq!(row_values(&rows), vec![vec![1]]);
}

#[test]
fn row_stream_is_exhausted_after_an_error() {
    let events = vec![
        Ok(ReceivedToken::NewResultset(schema(&["a"]))),
        Err(Error::Protocol("connection reset".to_owned())),
        Ok(ReceivedToken::Row(vec![1])),
    ];
    let mut result = QueryResult::new(source(events));
    match result.poll_next() {
        Some(Err(Error::Protocol(msg))) => assert_eq!(msg, "connection reset"),
        _ => panic!("error was not surfaced"),
    }
    assert!(result.poll_next().is_none());
    assert!(result.poll_next().is_none());
    assert!(!result.next_resultset());
}

#[test]
fn row_stream_is_exhausted_after_metadata_failure() {
    let events = vec![
        Ok(ReceivedToken::Done(done(0, 0))),
        Ok(ReceivedToken::Row(vec![1])),
    ];
    let mut result = QueryResult::new(source(events));
    assert!(result.fetch_metadata().is_err());
    assert!(result.poll_next().is_none());
    assert!(result.poll_next().is_none());
}
