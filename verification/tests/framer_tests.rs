use alog_sink::framer::{FrameStep, FramingError, LineFramer};

fn drain(framer: &mut LineFramer) -> Vec<Vec<u8>> {
    let mut frames = Vec::new();
    loop {
        match framer.next_frame() {
            FrameStep::Frame(f) => frames.push(f),
            FrameStep::NeedMore => return frames,
            FrameStep::Fail(e) => panic!("unexpected framing error: {:?}", e),
        }
    }
}

#[test]
fn frames_split_in_order() {
    let mut framer = LineFramer::new(1024);
    framer.feed("A\nB\n".as_bytes());
    let frames = drain(&mut framer);
    assert_eq!(frames, vec![b"A".to_vec(), b"B".to_vec()]);
}

#[test]
fn frames_same_for_one_byte_chunks() {
    let input = "A\nB\n";
    let mut all_at_once = LineFramer::new(1024);
    all_at_once.feed(input.as_bytes());
    let expected = drain(&mut all_at_once);

    let mut byte_by_byte = LineFramer::new(1024);
    let mut got = Vec::new();
    for b in input.as_bytes() {
        byte_by_byte.feed(&[*b]);
        got.append(&mut drain(&mut byte_by_byte));
    }
    assert_eq!(got, expected);
    assert_eq!(got, vec![b"A".to_vec(), b"B".to_vec()]);
}

#[test]
fn frames_same_for_uneven_chunks() {
    let input = "first line\nsecond\nthird\n";
    let mut whole = LineFramer::new(1024);
    whole.feed(input.as_bytes());
    let expected = drain(&mut whole);

    let mut chunked = LineFramer::new(1024);
    let mut got = Vec::new();
    for chunk in input.as_bytes().chunks(7) {
        chunked.feed(chunk);
        got.append(&mut drain(&mut chunked));
    }
    assert_eq!(got, expected);
    assert_eq!(got.len(), 3);
}

#[test]
fn frame_at_limit_accepted() {
    let mut framer = LineFramer::new(5);
    framer.feed("abcde\n".as_bytes());
    match framer.next_frame() {
        FrameStep::Frame(f) => assert_eq!(f, b"abcde".to_vec()),
        other => panic!("expected a frame, got {:?}", other),
    }
}

#[test]
fn frame_one_over_limit_rejected() {
    let mut framer = LineFramer::new(5);
    framer.feed("abcdef\n".as_bytes());
    match framer.next_frame() {
        FrameStep::Fail(e) => assert_eq!(e, FramingError::TooLong),
        other => panic!("expected a framing error, got {:?}", other),
    }
}

#[test]
fn overlong_line_without_newline_rejected() {
    let mut framer = LineFramer::new(5);
    framer.feed("abcdef".as_bytes());
    match framer.next_frame() {
        FrameStep::Fail(e) => assert_eq!(e, FramingError::TooLong),
        other => panic!("expected a framing error, got {:?}", other),
    }
}

#[test]
fn exactly_max_pending_needs_more() {
    let mut framer = LineFramer::new(5);
    framer.feed("abcde".as_bytes());
    match framer.next_frame() {
        FrameStep::NeedMore => {}
        other => panic!("expected to need more bytes, got {:?}", other),
    }
    framer.feed("\n".as_bytes());
    match framer.next_frame() {
        FrameStep::Frame(f) => assert_eq!(f, b"abcde".to_vec()),
        other => panic!("expected a frame, got {:?}", other),
    }
}

#[test]
fn trailing_carriage_return_stripped() {
    let mut framer = LineFramer::new(1024);
    framer.feed("A\r\nB\n".as_bytes());
    let frames = drain(&mut framer);
    assert_eq!(frames, vec![b"A".to_vec(), b"B".to_vec()]);
}

#[test]
fn empty_lines_are_frames() {
    let mut framer = LineFramer::new(16);
    framer.feed("\n\nx\n".as_bytes());
    let frames = drain(&mut framer);
    assert_eq!(frames, vec![Vec::new(), Vec::new(), b"x".to_vec()]);
}
