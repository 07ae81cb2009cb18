use basic_file_server::Action;
use basic_file_server::Connection;

#[test]
fn commands_arrive_in_pieces() {
    let mut conn = Connection::new();
    conn.ingest(b"LI");
    assert!(conn.extract_command().is_none());
    conn.ingest(b"ST\n");
    assert_eq!(conn.extract_command(), Some(b"LIST".to_vec()));
    assert!(conn.extract_command().is_none());
}

#[test]
fn remainder_stays_for_the_next_command() {
    let mut conn = Connection::new();
    conn.ingest(b"LIST\nGET a\n");
    assert_eq!(conn.extract_command(), Some(b"LIST".to_vec()));
    assert_eq!(conn.extract_command(), Some(b"GET a".to_vec()));
    assert!(conn.extract_command().is_none());
}

#[test]
fn list_command_asks_for_the_listing() {
    let mut conn = Connection::new();
    let r = conn.handle_command(b"LIST");
    assert!(matches!(r, Action::SendList));
    assert!(conn.output().is_empty());
}

#[test]
fn listing_reply_is_space_separated_with_sentinel() {
    let mut conn = Connection::new();
    let names: Vec<Vec<u8>> = vec![b"a.txt".to_vec(), b"b.bin".to_vec()];
    conn.supply_listing(&names);
    assert_eq!(conn.output(), b"a.txt b.bin .\n");
}

#[test]
fn empty_directory_lists_only_the_sentinel() {
    let mut conn = Connection::new();
    let names: Vec<Vec<u8>> = Vec::new();
    conn.supply_listing(&names);
    assert_eq!(conn.output(), b".\n");
}

#[test]
fn get_without_name_is_rejected() {
    let mut conn = Connection::new();
    let r = conn.handle_command(b"GET");
    assert!(matches!(r, Action::Idle));
    assert_eq!(conn.output(), b"ERR missing filename\n");
}

#[test]
fn unknown_keyword_is_rejected() {
    let mut conn = Connection::new();
    let r = conn.handle_command(b"FETCH x");
    assert!(matches!(r, Action::Idle));
    assert_eq!(conn.output(), b"ERR unknown command\n");
}

#[test]
fn empty_line_does_nothing() {
    let mut conn = Connection::new();
    let r = conn.handle_command(b"");
    assert!(matches!(r, Action::Idle));
    assert!(conn.output().is_empty());
}

#[test]
fn get_sanitizes_the_requested_name() {
    let mut conn = Connection::new();
    match conn.handle_command(b"GET ../secret") {
        Action::OpenFile(name) => assert_eq!(name, b"secret".to_vec()),
        _ => panic!("GET should ask for a file"),
    }
}

#[test]
fn get_ignores_extra_tokens() {
    let mut conn = Connection::new();
    match conn.handle_command(b"GET a b") {
        Action::OpenFile(name) => assert_eq!(name, b"a".to_vec()),
        _ => panic!("GET should ask for a file"),
    }
}

#[test]
fn missing_file_leaves_no_streamer() {
    let mut conn = Connection::new();
    match conn.handle_command(b"GET nosuch") {
        Action::OpenFile(name) => assert_eq!(name, b"nosuch".to_vec()),
        _ => panic!("GET should ask for a file"),
    }
    conn.file_not_found();
    assert_eq!(conn.output(), b"ERR file not found\n");
    assert!(!conn.has_streamer());
    // The next command is processed normally.
    conn.mark_written(conn.output().len());
    conn.ingest(b"LIST\n");
    assert_eq!(conn.extract_command(), Some(b"LIST".to_vec()));
}

#[test]
fn commands_wait_while_a_transfer_is_in_flight() {
    let mut conn = Connection::new();
    conn.attach_streamer(2);
    conn.ingest(b"LIST\n");
    // Deterministic choice: inbound bytes wait until the streamer is done.
    assert!(conn.extract_command().is_none());
    conn.pump(b"hi");
    let n = conn.output().len();
    conn.mark_written(n);
    assert!(conn.release_done_streamer());
    assert_eq!(conn.extract_command(), Some(b"LIST".to_vec()));
}

#[test]
fn streamer_is_kept_until_output_drains() {
    let mut conn = Connection::new();
    conn.attach_streamer(1);
    conn.pump(b"x");
    // Everything is queued but not yet written: the file stays open.
    assert!(!conn.release_done_streamer());
    let n = conn.output().len();
    conn.mark_written(n - 1);
    assert!(!conn.release_done_streamer());
    conn.mark_written(1);
    assert!(conn.release_done_streamer());
}

#[test]
fn surrounding_whitespace_is_trimmed() {
    let mut conn = Connection::new();
    conn.ingest(b"  LIST \r\n");
    assert_eq!(conn.extract_command(), Some(b"LIST".to_vec()));
    conn.ingest(b"\tGET  x \n");
    assert_eq!(conn.extract_command(), Some(b"GET  x".to_vec()));
}

#[test]
fn a_connection_serves_transfers_back_to_back() {
    let mut conn = Connection::new();
    for round in 0..3u8 {
        conn.attach_streamer(1);
        conn.pump(&[round]);
        let expected_md5 = format!("{:x}", md5::compute([round]));
        let mut expected = b"FILE 1\n".to_vec();
        expected.push(round);
        expected.extend_from_slice(format!("\nMD5 {}\n", expected_md5).as_bytes());
        assert_eq!(conn.output(), &expected[..]);
        conn.mark_written(expected.len());
        assert!(conn.release_done_streamer());
        assert!(!conn.has_streamer());
    }
}

#[test]
fn partial_writes_drain_from_the_front() {
    let mut conn = Connection::new();
    conn.handle_command(b"NOPE");
    assert_eq!(conn.output(), b"ERR unknown command\n");
    conn.mark_written(4);
    assert_eq!(conn.output(), b"unknown command\n");
    conn.mark_written(16);
    assert!(conn.output().is_empty());
}
