use line_reader::assembler::Event;
use line_reader::reader::LineReader;

#[test]
fn feed_queues_completed_lines_in_order() {
    let mut r = LineReader::new();
    r.feed(&b"ok\rgo\n".to_vec());
    assert_eq!(r.queued_len(), 2);
    assert_eq!(r.buffered_len(), 0);
    let lines = r.take_lines();
    assert_eq!(r.queued_len(), 0);
    assert_eq!(lines.len(), 2);
    assert_eq!(lines[0].bytes, b"ok".to_vec());
    assert_eq!(lines[0].text, Some(String::from("ok")));
    assert_eq!(lines[1].bytes, b"go".to_vec());
    assert_eq!(lines[1].text, Some(String::from("go")));
}

#[test]
fn handle_byte_returns_event_and_queues_line() {
    let mut r = LineReader::new();
    assert_eq!(r.handle_byte(b'h'), Some(Event::ByteAppended(1)));
    assert_eq!(r.handle_byte(b'i'), Some(Event::ByteAppended(2)));
    assert_eq!(r.snapshot(), b"hi".to_vec());
    let ev = r.handle_byte(b'\n');
    match ev {
        Some(Event::LineCompleted(line)) => {
            assert_eq!(line.bytes, b"hi".to_vec());
            assert_eq!(line.text, Some(String::from("hi")));
        }
        other => panic!("unexpected event: {:?}", other),
    }
    assert_eq!(r.queued_len(), 1);
    let lines = r.take_lines();
    assert_eq!(lines[0].bytes, b"hi".to_vec());
}

#[test]
fn feed_applies_backspace_editing() {
    let mut r = LineReader::new();
    r.feed(&b"adc\x08\x08bc\n".to_vec());
    let lines = r.take_lines();
    assert_eq!(lines.len(), 1);
    assert_eq!(lines[0].bytes, b"abc".to_vec());
    assert_eq!(lines[0].text, Some(String::from("abc")));
}

#[test]
fn feed_keeps_partial_line_buffered() {
    let mut r = LineReader::new();
    r.feed(&b"first\nsec".to_vec());
    assert_eq!(r.queued_len(), 1);
    assert_eq!(r.buffered_len(), 3);
    assert_eq!(r.snapshot(), b"sec".to_vec());
    r.feed(&b"ond\n".to_vec());
    let lines = r.take_lines();
    assert_eq!(lines.len(), 2);
    assert_eq!(lines[0].bytes, b"first".to_vec());
    assert_eq!(lines[1].bytes, b"second".to_vec());
}

#[test]
fn take_lines_leaves_buffer_untouched() {
    let mut r = LineReader::new();
    r.feed(&b"a\nbc".to_vec());
    let _ = r.take_lines();
    assert_eq!(r.queued_len(), 0);
    assert_eq!(r.buffered_len(), 2);
    assert_eq!(r.snapshot(), b"bc".to_vec());
}
