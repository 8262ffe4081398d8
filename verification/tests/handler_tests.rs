use alog_sink::handler::{Action, Connection};
use alog_sink::framer::FramingError;
use alog_sink::transform::TransformError;
use alog_sink::MAX_LINE_LENGTH;

fn valid_line() -> String {
    let mut line = String::new();
    line.push_str("{\"level\":\"info\",\"ts\":1700000000.5,\"logger\":\"caddy\",\"msg\":\"ok\",");
    line.push_str("\"request\":{\"remote_ip\":\"10.0.0.1\",\"remote_port\":\"51234\",");
    line.push_str("\"proto\":\"HTTP/1.1\",\"method\":\"GET\",\"host\":\"example.org\",\"uri\":\"/\",");
    line.push_str("\"headers\":{}},");
    line.push_str("\"bytes_read\":10,\"duration\":0.01,\"size\":100,\"status\":200,");
    line.push_str("\"resp_headers\":{}}");
    line
}

#[test]
fn valid_line_yields_one_insert() {
    let mut conn = Connection::new("svc".to_string(), "prod".to_string(), MAX_LINE_LENGTH);
    let mut input = valid_line();
    input.push('\n');
    conn.feed(input.as_bytes());
    match conn.poll() {
        Action::Insert(row) => {
            assert_eq!(row.logger_timestamp, 1_700_000_000_500);
            assert_eq!(row.status, 200);
            assert_eq!(row.service, "svc");
            assert_eq!(row.environment, "prod");
        }
        other => panic!("expected an insert, got {:?}", other),
    }
    match conn.poll() {
        Action::NeedRead => {}
        other => panic!("expected to need more bytes, got {:?}", other),
    }
}

#[test]
fn malformed_then_valid_line_inserts_exactly_one_row() {
    let mut conn = Connection::new("svc".to_string(), "prod".to_string(), MAX_LINE_LENGTH);
    let mut input = "this is not json\n".to_string();
    input.push_str(&valid_line());
    input.push('\n');
    conn.feed(input.as_bytes());

    let mut inserted = 0;
    let mut skipped = 0;
    loop {
        match conn.poll() {
            Action::Insert(_) => inserted += 1,
            Action::SkipMalformed(e) => {
                assert_eq!(e, TransformError::Parse);
                skipped += 1;
            }
            Action::NeedRead => break,
            Action::Close(e) => panic!("connection must stay open, got {:?}", e),
        }
    }
    assert_eq!(inserted, 1);
    assert_eq!(skipped, 1);

    // The connection is still open and handles further lines.
    let mut more = valid_line();
    more.push('\n');
    conn.feed(more.as_bytes());
    match conn.poll() {
        Action::Insert(_) => {}
        other => panic!("expected an insert after recovery, got {:?}", other),
    }
}

#[test]
fn overlong_line_closes_connection_without_insert() {
    let mut conn = Connection::new("svc".to_string(), "prod".to_string(), MAX_LINE_LENGTH);
    let oversized = vec![b'a'; MAX_LINE_LENGTH + 1];
    conn.feed(&oversized);
    match conn.poll() {
        Action::Close(e) => assert_eq!(e, FramingError::TooLong),
        other => panic!("expected the connection to close, got {:?}", other),
    }
}

#[test]
fn line_at_limit_is_still_framed() {
    let mut conn = Connection::new("svc".to_string(), "prod".to_string(), 32);
    let mut input = vec![b'x'; 32];
    input.push(b'\n');
    conn.feed(&input);
    match conn.poll() {
        Action::SkipMalformed(_) => {}
        other => panic!("expected a malformed frame, got {:?}", other),
    }
}

#[test]
fn frame_ids_are_version_seven() {
    let mut conn = Connection::new("s".to_string(), "e".to_string(), MAX_LINE_LENGTH);
    let mut input = valid_line();
    input.push('\n');
    input.push_str(&valid_line());
    input.push('\n');
    conn.feed(input.as_bytes());
    let mut ids = Vec::new();
    loop {
        match conn.poll() {
            Action::Insert(row) => ids.push(row.id),
            Action::NeedRead => break,
            other => panic!("unexpected action {:?}", other),
        }
    }
    assert_eq!(ids.len(), 2);
    for id in &ids {
        assert_eq!((id >> 76) & 0xF, 7, "frame ids carry the version-7 bits");
    }
    assert_ne!(ids[0], ids[1], "each frame gets its own identifier");
}

#[test]
fn frames_are_processed_in_arrival_order() {
    let mut conn = Connection::new("s".to_string(), "e".to_string(), MAX_LINE_LENGTH);
    let first = valid_line().replace("\"status\":200", "\"status\":201");
    let second = valid_line().replace("\"status\":200", "\"status\":202");
    let mut input = first;
    input.push('\n');
    input.push_str(&second);
    input.push('\n');
    conn.feed(input.as_bytes());
    let mut statuses = Vec::new();
    loop {
        match conn.poll() {
            Action::Insert(row) => statuses.push(row.status),
            Action::NeedRead => break,
            other => panic!("unexpected action {:?}", other),
        }
    }
    assert_eq!(statuses, vec![201, 202]);
}
