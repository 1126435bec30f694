use walkv::{command_from_words, parse_query, Command, InMemoryWriteAheadLog, OnDiskReplayIterator, ReadEvent, Server, State, Transaction, WalError, WriteAheadLog};

fn get(id: usize, key: &str) -> Transaction {
    Transaction { id, command: Command::Get { key: key.to_string() } }
}

#[test]
fn append_then_replay_returns_same_sequence() {
    let mut wal = InMemoryWriteAheadLog::new();
    let ts = vec![
        Transaction { id: 0, command: Command::Put { key: "x".to_string(), value: "1".to_string() } },
        get(1, "x"),
        Transaction { id: 7, command: Command::Nop },
    ];
    for t in &ts {
        wal.append(t).unwrap();
    }
    let rp = wal.replay().unwrap();
    assert_eq!(rp.failure, None);
    assert_eq!(rp.transactions, ts);
    let again = wal.replay().unwrap();
    assert_eq!(again.transactions, ts);
}

#[test]
fn empty_log_replays_nothing() {
    let mut wal = InMemoryWriteAheadLog::new();
    let rp = wal.replay().unwrap();
    assert!(rp.transactions.is_empty());
    assert_eq!(rp.failure, None);
}

#[test]
fn malformed_line_stops_replay() {
    let mut it = OnDiskReplayIterator::new();
    assert!(!it.is_exhausted());
    assert_eq!(it.next_from(ReadEvent::Record(get(0, "a"))), Some(Ok(get(0, "a"))));
    assert_eq!(it.next_from(ReadEvent::Malformed), Some(Err(WalError::DecodeFailure)));
    assert!(it.is_exhausted());
    assert_eq!(it.next_from(ReadEvent::Record(get(1, "b"))), None);
    assert_eq!(it.next_from(ReadEvent::EndOfStream), None);
}

#[test]
fn read_failure_stops_replay() {
    let mut it = OnDiskReplayIterator::new();
    assert_eq!(it.next_from(ReadEvent::ReadFailed), Some(Err(WalError::IoFailure)));
    assert!(it.is_exhausted());
    assert_eq!(it.next_from(ReadEvent::Malformed), None);
}

#[test]
fn end_of_stream_is_clean() {
    let mut it = OnDiskReplayIterator::new();
    assert_eq!(it.next_from(ReadEvent::EndOfStream), None);
    assert!(!it.is_exhausted());
}

#[test]
fn parse_recognises_the_two_forms() {
    assert_eq!(parse_query("GET k"), Command::Get { key: "k".to_string() });
    assert_eq!(
        parse_query("  SET\tkey   value \n"),
        Command::Put { key: "key".to_string(), value: "value".to_string() }
    );
    assert_eq!(
        Server::<InMemoryWriteAheadLog>::parse("SET a b"),
        Command::Put { key: "a".to_string(), value: "b".to_string() }
    );
}

#[test]
fn parse_maps_everything_else_to_nop() {
    assert_eq!(parse_query(""), Command::Nop);
    assert_eq!(parse_query("GET"), Command::Nop);
    assert_eq!(parse_query("GET a b"), Command::Nop);
    assert_eq!(parse_query("SET a"), Command::Nop);
    assert_eq!(parse_query("SET a b c"), Command::Nop);
    assert_eq!(parse_query("get a"), Command::Nop);
    assert_eq!(parse_query("PUT a b"), Command::Nop);
}

#[test]
fn command_from_words_builds_commands() {
    let w = |v: &[&str]| v.iter().map(|s| s.to_string()).collect::<Vec<String>>();
    assert_eq!(command_from_words(&w(&["GET", "k"])), Command::Get { key: "k".to_string() });
    assert_eq!(
        command_from_words(&w(&["SET", "k", "v"])),
        Command::Put { key: "k".to_string(), value: "v".to_string() }
    );
    assert_eq!(command_from_words(&w(&["SET", "k"])), Command::Nop);
    assert_eq!(command_from_words(&w(&[])), Command::Nop);
}

#[test]
fn state_apply_results() {
    let mut st = State::new();
    let put = Transaction { id: 0, command: Command::Put { key: "k".to_string(), value: "".to_string() } };
    assert_eq!(st.apply(&get(0, "k")), "");
    assert_eq!(st.get("k"), None);
    assert_eq!(st.apply(&put), "");
    assert_eq!(st.get("k"), Some("".to_string()));
    assert_eq!(st.apply(&get(1, "k")), "");
    assert_eq!(st.apply(&Transaction { id: 2, command: Command::Nop }), "");
    assert_eq!(st.len(), 1);
}

#[test]
fn applying_a_put_twice_is_applying_it_once() {
    let t = Transaction { id: 0, command: Command::Put { key: "k".to_string(), value: "v".to_string() } };
    let mut once = State::new();
    once.apply(&t);
    let mut twice = State::new();
    twice.apply(&t);
    twice.apply(&t);
    assert_eq!(once.len(), twice.len());
    assert_eq!(once.get("k"), twice.get("k"));
}
