use agentyk::jsonl_log::{
    corrupt_line, is_blank, EventMark, EventRange, ExpectedVersion, JsonlEventLog,
};
use agentyk::message::Error;

fn event(session_id: u128, sequence: u64) -> EventMark {
    EventMark { session_id, sequence: Some(sequence) }
}

fn opened(events: &Vec<EventMark>) -> JsonlEventLog {
    let names = events.iter().map(|e| format!("session_{}", e.session_id)).collect();
    JsonlEventLog::new(events, &names).ok().unwrap()
}

#[test]
fn jsonl_batches_are_version_checked_and_incrementally_readable() {
    let mut events: Vec<EventMark> = vec![];
    let mut log = opened(&events);
    let sequences = log.plan_batch(1, ExpectedVersion::Exact(0), &vec![1, 1]).unwrap();
    assert_eq!(sequences, vec![1, 2]);
    events.extend(sequences.iter().map(|s| event(1, *s)));
    log.commit(1, 2);

    let conflict = log.plan_batch(1, ExpectedVersion::Exact(0), &vec![1]).unwrap_err();
    assert!(matches!(conflict, Error::EventConflict { expected: 0, actual: 2 }));
    assert_eq!(JsonlEventLog::read_after(&events, 1, Some(1)).len(), 1);
    let page = log.read_page(
        &events,
        EventRange { session_id: 1, after: None, through: None, limit: 1 },
    );
    assert_eq!(page.events.len(), 1);
    assert_eq!(page.head, 2);
    assert_eq!(page.next, Some(1));
}

#[test]
fn reopening_a_log_resumes_its_numbering() {
    let events = vec![event(1, 1), event(2, 1), event(1, 2)];
    let log = opened(&events);
    assert_eq!(log.head(1), 2);
    assert_eq!(log.head(2), 1);
    assert_eq!(log.head(3), 0);
    assert_eq!(log.plan_batch(1, ExpectedVersion::Any, &vec![1]).unwrap(), vec![3]);
}

#[test]
fn two_sessions_share_one_file_with_independent_sequences() {
    let mut events: Vec<EventMark> = vec![];
    let mut log = opened(&events);
    for session in [7, 8] {
        let sequences = log.plan_batch(session, ExpectedVersion::Any, &vec![session]).unwrap();
        events.push(event(session, sequences[0]));
        log.commit(session, 1);
    }
    assert_eq!(events[0].sequence, Some(1));
    assert_eq!(events[1].sequence, Some(1));
    assert_eq!(JsonlEventLog::read_after(&events, 8, None), vec![1]);
}

#[test]
fn an_event_without_a_sequence_fails_the_open() {
    let events = vec![event(1, 1), EventMark { session_id: 2, sequence: None }];
    let names = vec!["session_a".to_string(), "session_b".to_string()];
    match JsonlEventLog::new(&events, &names) {
        Err(Error::EventLog(text)) => {
            assert_eq!(text, "log line for session session_b has no sequence")
        }
        _ => panic!("opened"),
    }
}

#[test]
fn a_batch_of_another_session_is_refused() {
    let log = opened(&vec![]);
    let error = log.plan_batch(1, ExpectedVersion::Any, &vec![1, 2]).unwrap_err();
    assert!(
        matches!(error, Error::EventLog(text) if text == "event batch contains a different session")
    );
}

#[test]
fn a_conflict_comes_before_running_out_of_numbers() {
    let log = opened(&vec![event(1, u64::MAX)]);
    let conflict = log.plan_batch(1, ExpectedVersion::Exact(3), &vec![1]).unwrap_err();
    assert!(matches!(conflict, Error::EventConflict { expected: 3, actual: u64::MAX }));
    assert!(log.check_batch(1, ExpectedVersion::Exact(u64::MAX), &vec![1]).is_ok());
    assert!(log.check_batch(1, ExpectedVersion::Any, &vec![2]).is_err());
}

#[test]
fn reading_goes_by_sequence_and_keeps_equal_ones_in_place() {
    let events = vec![event(1, 3), event(1, 1), event(2, 2), event(1, 3), event(1, 2)];
    assert_eq!(JsonlEventLog::read_after(&events, 1, None), vec![1, 4, 0, 3]);
    assert_eq!(JsonlEventLog::read_after(&events, 1, Some(2)), vec![0, 3]);
}

#[test]
fn pages_go_on_where_the_last_one_ended() {
    let events: Vec<EventMark> = (1..=5).map(|s| event(1, s)).collect();
    let log = opened(&events);
    let mut seen: Vec<usize> = vec![];
    let mut after: Option<u64> = None;
    loop {
        let page = log.read_page(
            &events,
            EventRange { session_id: 1, after, through: Some(4), limit: 3 },
        );
        seen.extend(&page.events);
        match page.next {
            Some(next) => after = Some(next),
            None => break,
        }
    }
    assert_eq!(seen, vec![0, 1, 2, 3]);
}

#[test]
fn a_page_does_not_look_at_the_lines_behind_it() {
    let events: Vec<EventMark> = (1..=3).map(|s| event(1, s)).collect();
    let log = opened(&events);
    let range = |limit| EventRange { session_id: 1, after: None, through: None, limit };
    let page = log.read_page_until(&events, Some(corrupt_line("eof")), range(2)).unwrap();
    assert_eq!(page.events, vec![0, 1]);
    assert_eq!(page.next, Some(2));
    for limit in [3, usize::MAX] {
        assert!(matches!(
            log.read_page_until(&events, Some(corrupt_line("eof")), range(limit)),
            Err(Error::EventLog(text)) if text == "corrupt log line: eof"
        ));
        let page = log.read_page_until(&events, None, range(limit)).unwrap();
        assert_eq!(page.events, vec![0, 1, 2]);
        assert_eq!(page.next, None);
    }
}

#[test]
fn blank_lines_are_passed_over_and_corrupt_ones_named() {
    assert!(is_blank(" \t\r"));
    assert!(!is_blank("{}"));
    assert!(
        matches!(corrupt_line("eof"), Error::EventLog(text) if text == "corrupt log line: eof")
    );
}
