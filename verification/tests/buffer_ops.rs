use line_reader::buffer::{BufferFull, LineBuffer, LINE_CAPACITY};

#[test]
fn fresh_buffer_is_empty_and_zeroed() {
    let b = LineBuffer::new();
    assert_eq!(b.len(), 0);
    assert_eq!(b.capacity(), LINE_CAPACITY);
    assert_eq!(b.snapshot(), Vec::<u8>::new());
    assert_eq!(b.storage_snapshot(), vec![0u8; LINE_CAPACITY]);
}

#[test]
fn append_reports_new_length() {
    let mut b = LineBuffer::new();
    assert_eq!(b.append(b'a'), Ok(1));
    assert_eq!(b.append(b'b'), Ok(2));
    assert_eq!(b.len(), 2);
    assert_eq!(b.snapshot(), vec![b'a', b'b']);
}

#[test]
fn append_full_buffer_drops_byte() {
    let mut b = LineBuffer::new();
    for i in 0..LINE_CAPACITY {
        assert_eq!(b.append(b'x'), Ok(i + 1));
    }
    assert_eq!(b.append(b'y'), Err(BufferFull));
    assert_eq!(b.len(), LINE_CAPACITY);
    assert_eq!(b.snapshot(), vec![b'x'; LINE_CAPACITY]);
}

#[test]
fn delete_last_zeroes_and_retreats() {
    let mut b = LineBuffer::new();
    b.append(b'a').unwrap();
    b.append(b'b').unwrap();
    assert_eq!(b.delete_last(), Some(1));
    assert_eq!(b.snapshot(), vec![b'a']);
    let raw = b.storage_snapshot();
    assert_eq!(raw[1], 0);
}

#[test]
fn delete_last_on_empty_is_noop() {
    let mut b = LineBuffer::new();
    assert_eq!(b.delete_last(), None);
    assert_eq!(b.delete_last(), None);
    assert_eq!(b.len(), 0);
    assert_eq!(b.storage_snapshot(), vec![0u8; LINE_CAPACITY]);
}

#[test]
fn append_then_delete_round_trip_zeroes_storage() {
    let mut b = LineBuffer::new();
    for &byte in b"hello" {
        b.append(byte).unwrap();
    }
    for _ in 0..5 {
        b.delete_last().unwrap();
    }
    assert_eq!(b.len(), 0);
    assert_eq!(b.storage_snapshot(), vec![0u8; LINE_CAPACITY]);
}

#[test]
fn reset_zeroes_full_storage() {
    let mut b = LineBuffer::new();
    for &byte in b"stale" {
        b.append(byte).unwrap();
    }
    b.reset();
    assert_eq!(b.len(), 0);
    assert_eq!(b.storage_snapshot(), vec![0u8; LINE_CAPACITY]);
}
