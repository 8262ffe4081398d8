use alog_sink::transform::{transform_frame, TransformError};

const ID: u128 = 7;

fn full_line() -> String {
    let mut line = String::new();
    line.push_str("{\"level\":\"info\",\"ts\":1700000000.5,\"logger\":\"caddy\",\"msg\":\"ok\",");
    line.push_str("\"request\":{\"remote_ip\":\"10.0.0.1\",\"remote_port\":\"51234\",");
    line.push_str("\"proto\":\"HTTP/1.1\",\"method\":\"GET\",\"host\":\"example.org\",\"uri\":\"/\",");
    line.push_str("\"headers\":{\"Accept\":[\"*/*\",\"text/html\"]}},");
    line.push_str("\"bytes_read\":10,\"user_id\":null,\"duration\":0.01,\"size\":100,\"status\":200,");
    line.push_str("\"resp_headers\":{}}");
    line
}

#[test]
fn valid_line_produces_row_verbatim() {
    let line = full_line();
    let row = transform_frame(line.as_bytes(), ID, "svc", "prod").expect("valid line must parse");
    assert_eq!(row.id, ID);
    assert_eq!(row.service, "svc");
    assert_eq!(row.environment, "prod");
    assert_eq!(row.level, "info");
    assert_eq!(row.logger_timestamp, 1_700_000_000_500);
    assert_eq!(row.logger, "caddy");
    assert_eq!(row.message, "ok");
    assert_eq!(row.remote_ip, "10.0.0.1");
    assert_eq!(row.remote_port, "51234");
    assert_eq!(row.client_ip, None);
    assert_eq!(row.protocol, "HTTP/1.1");
    assert_eq!(row.method, "GET");
    assert_eq!(row.host, "example.org");
    assert_eq!(row.uri, "/");
    assert_eq!(
        row.headers,
        vec![("Accept".to_string(), vec!["*/*".to_string(), "text/html".to_string()])]
    );
    assert_eq!(row.bytes_read, 10);
    assert_eq!(row.user_id, None);
    assert_eq!(row.duration_micros, 10_000);
    assert_eq!(row.size, 100);
    assert_eq!(row.status, 200);
    assert_eq!(row.response_headers, Vec::new());
}

#[test]
fn field_order_does_not_matter() {
    let mut line = String::new();
    line.push_str("{\"status\":204,\"size\":1,\"duration\":1.5,\"bytes_read\":2,");
    line.push_str("\"resp_headers\":{},\"msg\":\"m\",\"logger\":\"l\",\"ts\":2.25,\"level\":\"warn\",");
    line.push_str("\"request\":{\"headers\":{},\"uri\":\"/x\",\"host\":\"h\",\"method\":\"POST\",");
    line.push_str("\"proto\":\"HTTP/2.0\",\"remote_port\":\"1\",\"remote_ip\":\"::1\"}}");
    let row = transform_frame(line.as_bytes(), ID, "s", "e").expect("order must not matter");
    assert_eq!(row.status, 204);
    assert_eq!(row.logger_timestamp, 2250);
    assert_eq!(row.duration_micros, 1_500_000);
    assert_eq!(row.method, "POST");
}

#[test]
fn invalid_json_is_rejected() {
    let r = transform_frame("not json".as_bytes(), ID, "s", "e");
    assert_eq!(r.unwrap_err(), TransformError::Parse);
}

#[test]
fn truncated_object_is_rejected() {
    let r = transform_frame("{\"level\":\"info\"".as_bytes(), ID, "s", "e");
    assert_eq!(r.unwrap_err(), TransformError::Parse);
}

#[test]
fn missing_required_field_is_rejected() {
    let line = full_line().replace("\"status\":200,", "");
    let r = transform_frame(line.as_bytes(), ID, "s", "e");
    assert_eq!(r.unwrap_err(), TransformError::Parse);
}

#[test]
fn wrong_field_type_is_rejected() {
    let line = full_line().replace("\"status\":200", "\"status\":\"200\"");
    let r = transform_frame(line.as_bytes(), ID, "s", "e");
    assert_eq!(r.unwrap_err(), TransformError::Parse);
}

#[test]
fn duplicated_field_is_rejected() {
    let line = full_line().replace("\"status\":200,", "\"status\":200,\"status\":200,");
    let r = transform_frame(line.as_bytes(), ID, "s", "e");
    assert_eq!(r.unwrap_err(), TransformError::Parse);
}

#[test]
fn status_out_of_range_is_rejected() {
    let line = full_line().replace("\"status\":200", "\"status\":70000");
    let r = transform_frame(line.as_bytes(), ID, "s", "e");
    assert_eq!(r.unwrap_err(), TransformError::Parse);
}

#[test]
fn fractional_unsigned_field_is_rejected() {
    let line = full_line().replace("\"bytes_read\":10", "\"bytes_read\":10.5");
    let r = transform_frame(line.as_bytes(), ID, "s", "e");
    assert_eq!(r.unwrap_err(), TransformError::Parse);
}

#[test]
fn invalid_utf8_is_rejected() {
    let mut bytes = full_line().into_bytes();
    bytes.push(0xFF);
    let r = transform_frame(&bytes, ID, "s", "e");
    assert_eq!(r.unwrap_err(), TransformError::Parse);
}

#[test]
fn trailing_garbage_is_rejected() {
    let mut line = full_line();
    line.push_str(" x");
    let r = transform_frame(line.as_bytes(), ID, "s", "e");
    assert_eq!(r.unwrap_err(), TransformError::Parse);
}

#[test]
fn trailing_whitespace_is_accepted() {
    let mut line = full_line();
    line.push_str("  \t ");
    assert!(transform_frame(line.as_bytes(), ID, "s", "e").is_ok());
}

#[test]
fn unknown_fields_are_skipped() {
    let line = full_line().replace(
        "\"bytes_read\":10,",
        "\"extra\":{\"nested\":[1,2,{\"a\":true}],\"b\":null},\"bytes_read\":10,",
    );
    let row = transform_frame(line.as_bytes(), ID, "s", "e").expect("unknown fields are ignored");
    assert_eq!(row.bytes_read, 10);
}

#[test]
fn malformed_unknown_field_is_rejected() {
    let line = full_line().replace("\"bytes_read\":10,", "\"extra\":{],\"bytes_read\":10,");
    let r = transform_frame(line.as_bytes(), ID, "s", "e");
    assert_eq!(r.unwrap_err(), TransformError::Parse);
}

#[test]
fn user_id_string_is_kept() {
    let line = full_line().replace("\"user_id\":null", "\"user_id\":\"alice\"");
    let row = transform_frame(line.as_bytes(), ID, "s", "e").unwrap();
    assert_eq!(row.user_id, Some("alice".to_string()));
}

#[test]
fn absent_user_id_is_legal() {
    let line = full_line().replace("\"user_id\":null,", "");
    let row = transform_frame(line.as_bytes(), ID, "s", "e").unwrap();
    assert_eq!(row.user_id, None);
}

#[test]
fn client_ip_is_optional() {
    let line = full_line().replace(
        "\"remote_ip\":\"10.0.0.1\",",
        "\"remote_ip\":\"10.0.0.1\",\"client_ip\":\"203.0.113.9\",",
    );
    let row = transform_frame(line.as_bytes(), ID, "s", "e").unwrap();
    assert_eq!(row.client_ip, Some("203.0.113.9".to_string()));
}

#[test]
fn timestamp_rounds_to_nearest_millisecond() {
    for (ts, millis) in [
        ("0", 0u64),
        ("1.0004", 1000),
        ("1.0005", 1001),
        ("1.0006", 1001),
        ("2", 2000),
        ("1700000000.5", 1_700_000_000_500),
        ("1.7e9", 1_700_000_000_000),
        ("17000000.005e2", 1_700_000_000_500),
        ("-5.5", 0),
        ("0.0004", 0),
        ("0.0005", 1),
    ] {
        let line = full_line().replace("\"ts\":1700000000.5", &format!("\"ts\":{}", ts));
        let row = transform_frame(line.as_bytes(), ID, "s", "e").unwrap();
        assert_eq!(row.logger_timestamp, millis, "ts={}", ts);
    }
}

#[test]
fn huge_timestamp_saturates() {
    let line = full_line().replace("\"ts\":1700000000.5", "\"ts\":1e40");
    let row = transform_frame(line.as_bytes(), ID, "s", "e").unwrap();
    assert_eq!(row.logger_timestamp, u64::MAX);
}

#[test]
fn string_escapes_are_decoded() {
    let line = full_line().replace(
        "\"msg\":\"ok\"",
        "\"msg\":\"a\\n\\t\\\"b\\\\c\\u00e9\\ud83d\\ude00\"",
    );
    let row = transform_frame(line.as_bytes(), ID, "s", "e").unwrap();
    assert_eq!(row.message, "a\n\t\"b\\c\u{e9}\u{1f600}");
}

#[test]
fn lone_surrogate_is_rejected() {
    let line = full_line().replace("\"msg\":\"ok\"", "\"msg\":\"x\\ud83dx\"");
    let r = transform_frame(line.as_bytes(), ID, "s", "e");
    assert_eq!(r.unwrap_err(), TransformError::Parse);
}

#[test]
fn raw_control_character_is_rejected() {
    let mut bytes = Vec::new();
    for b in full_line().into_bytes() {
        bytes.push(b);
    }
    let pos = bytes.windows(4).position(|w| w == b"\"ok\"").unwrap();
    bytes[pos + 1] = 0x07;
    let r = transform_frame(&bytes, ID, "s", "e");
    assert_eq!(r.unwrap_err(), TransformError::Parse);
}

#[test]
fn bytes_read_at_u64_max_is_kept() {
    let line = full_line().replace(
        "\"bytes_read\":10",
        "\"bytes_read\":18446744073709551615",
    );
    let row = transform_frame(line.as_bytes(), ID, "s", "e").unwrap();
    assert_eq!(row.bytes_read, u64::MAX);
}

#[test]
fn bytes_read_over_u64_max_is_rejected() {
    let line = full_line().replace(
        "\"bytes_read\":10",
        "\"bytes_read\":18446744073709551616",
    );
    let r = transform_frame(line.as_bytes(), ID, "s", "e");
    assert_eq!(r.unwrap_err(), TransformError::Parse);
}

#[test]
fn leading_zero_number_is_rejected() {
    let line = full_line().replace("\"bytes_read\":10", "\"bytes_read\":010");
    let r = transform_frame(line.as_bytes(), ID, "s", "e");
    assert_eq!(r.unwrap_err(), TransformError::Parse);
}
