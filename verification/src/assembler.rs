use vstd::prelude::*;

verus! {

use crate::buffer::{BufferFull, LineBuffer, LINE_CAPACITY, zero_storage};

/// A line terminator: LF or CR.
pub open spec fn is_line_end(byte: u8) -> bool {
    byte == 10 || byte == 13
}

/// A backspace: DEL or BS.
pub open spec fn is_backspace(byte: u8) -> bool {
    byte == 127 || byte == 8
}

/// Printable ASCII: byte values 32 through 126 inclusive.
pub open spec fn is_printable(byte: u8) -> bool {
    32 <= byte && byte <= 126
}

/// What `core::str::from_utf8` yields on a byte sequence: the decoded
/// characters where the bytes are valid UTF-8, nothing otherwise.
pub uninterp spec fn utf8_decoding(bytes: Seq<u8>) -> Option<Seq<char>>;

/// A completed line as handed to the consumer: the accumulated bytes,
/// exclusive of the terminator, and their text interpretation where they
/// decode as UTF-8 (`None` marks a line that is not decodable as text).
#[derive(Clone, Debug, PartialEq, Eq)]
pub struct CompletedLine {
    pub bytes: Vec<u8>,
    pub text: Option<String>,
}

/// The record `line` reports exactly the byte sequence `bytes`: the same raw
/// bytes, and a decoded text precisely where the bytes are valid UTF-8.
pub open spec fn reports_line(line: CompletedLine, bytes: Seq<u8>) -> bool {
    &&& line.bytes@ == bytes
    &&& (line.text is Some) == (utf8_decoding(bytes) is Some)
    &&& (line.text matches Some(t) ==> t@ == utf8_decoding(bytes)->Some_0)
}

impl CompletedLine {
    /// An equal copy: same bytes, and a text equal to the original's.
    pub fn duplicate(&self) -> (r: CompletedLine)
        ensures
            r.bytes@ == self.bytes@,
            r.text == self.text,
    {
        let mut bytes: Vec<u8> = Vec::new();
        let mut i: usize = 0;
        while i < self.bytes.len()
            invariant
                i <= self.bytes@.len(),
                bytes@ == self.bytes@.take(i as int),
            decreases self.bytes@.len() - i,
        {
            bytes.push(self.bytes[i]);
            proof {
                assert(bytes@ =~= self.bytes@.take(i + 1));
            }
            i = i + 1;
        }
        proof {
            assert(self.bytes@.take(self.bytes@.len() as int) =~= self.bytes@);
        }
        let text = match &self.text {
            Some(s) => Some(s.clone()),
            None => None,
        };
        CompletedLine { bytes, text }
    }
}

/// Relies on `core::str::from_utf8`: whether the bytes decode, and to which
/// characters, depends on the bytes alone.
#[verifier::external_body]
fn decode_text(bytes: &Vec<u8>) -> (r: Option<String>)
    ensures
        (r is Some) == (utf8_decoding(bytes@) is Some),
        (r matches Some(t) ==> t@ == utf8_decoding(bytes@)->Some_0),
{
    match core::str::from_utf8(bytes.as_slice()) {
        Ok(s) => Some(s.to_owned()),
        Err(_) => None,
    }
}

/// What one classified byte did, as reported to the caller; a backspace on an
/// empty buffer does nothing and reports no event at all.
#[derive(Clone, Debug, PartialEq, Eq)]
pub enum Event {
    /// A printable byte was appended; carries the new count of valid bytes.
    ByteAppended(usize),
    /// A backspace removed the last byte; carries the new count.
    ByteDeleted(usize),
    /// A printable byte arrived while the buffer was full; the byte was
    /// dropped and the buffer left unchanged.
    BufferFull,
    /// A line terminator arrived; carries the finished line. The buffer is
    /// reset: length zero, storage zero-filled.
    LineCompleted(CompletedLine),
    /// The byte belongs to no accepted class and changed nothing.
    ByteIgnored,
}

/// One classified byte applied to the abstract buffer state `(raw, length)`:
/// a terminator resets, a backspace retreats the cursor and zeroes the byte
/// it leaves, a printable byte lands at the cursor when there is room, and
/// everything else changes nothing.
pub open spec fn step_state(raw: Seq<u8>, length: nat, byte: u8) -> (Seq<u8>, nat) {
    if is_line_end(byte) {
        (zero_storage(), 0nat)
    } else if is_backspace(byte) {
        if length > 0 {
            (raw.update(length - 1, 0u8), (length - 1) as nat)
        } else {
            (raw, length)
        }
    } else if is_printable(byte) {
        if length < LINE_CAPACITY {
            (raw.update(length as int, byte), length + 1)
        } else {
            (raw, length)
        }
    } else {
        (raw, length)
    }
}

/// `step_state` folded over a byte sequence, in delivery order.
pub open spec fn feed_state(raw: Seq<u8>, length: nat, bytes: Seq<u8>) -> (Seq<u8>, nat)
    decreases bytes.len(),
{
    if bytes.len() == 0 {
        (raw, length)
    } else {
        let next = step_state(raw, length, bytes[0]);
        feed_state(next.0, next.1, bytes.drop_first())
    }
}

/// The lines one byte completes against the abstract state `(raw, length)`:
/// the valid prefix held at that moment for a terminator, none otherwise.
pub open spec fn step_lines(raw: Seq<u8>, length: nat, byte: u8) -> Seq<Seq<u8>> {
    if is_line_end(byte) {
        seq![raw.take(length as int)]
    } else {
        Seq::empty()
    }
}

/// The lines completed while a byte sequence is fed into the abstract state
/// `(raw, length)`, in delivery order.
pub open spec fn feed_lines(raw: Seq<u8>, length: nat, bytes: Seq<u8>) -> Seq<Seq<u8>>
    decreases bytes.len(),
{
    if bytes.len() == 0 {
        Seq::empty()
    } else {
        let next = step_state(raw, length, bytes[0]);
        step_lines(raw, length, bytes[0]) + feed_lines(next.0, next.1, bytes.drop_first())
    }
}

/// The event owed for `byte` classified against the abstract buffer state
/// `(raw, length)`: a terminator completes the held line, a backspace deletes
/// the last byte or reports nothing on an empty buffer, a printable byte is
/// appended or dropped as `BufferFull` when there is no room, and any other
/// byte is ignored.
pub open spec fn reported_event(raw: Seq<u8>, length: nat, byte: u8, r: Option<Event>) -> bool {
    &&& is_line_end(byte) ==> (r matches Some(e) && (e matches Event::LineCompleted(line)
        && reports_line(line, raw.take(length as int))))
    &&& is_backspace(byte) && length > 0 ==> r == Some(Event::ByteDeleted(
        ((length - 1) as usize),
    ))
    &&& is_backspace(byte) && length == 0 ==> r == None::<Event>
    &&& is_printable(byte) && length < LINE_CAPACITY ==> r == Some(Event::ByteAppended(
        ((length + 1) as usize),
    ))
    &&& is_printable(byte) && length == LINE_CAPACITY ==> r == Some(Event::BufferFull)
    &&& !is_line_end(byte) && !is_backspace(byte) && !is_printable(byte) ==> r == Some(
        Event::ByteIgnored,
    )
}

/// Classifies `byte` and applies it to `buffer`; first match wins.
///
/// A terminator captures the accumulated line, resets the buffer, and
/// reports `LineCompleted`; a backspace deletes the last byte (`ByteDeleted`)
/// or, on an empty buffer, does nothing and reports no event; a printable
/// byte is appended (`ByteAppended`) or dropped when the buffer is full
/// (`BufferFull`); any other byte is ignored without touching the buffer
/// (`ByteIgnored`). The new buffer state is `step_state` of the old.
pub fn classify_and_apply(byte: u8, buffer: &mut LineBuffer) -> (r: Option<Event>)
    requires
        old(buffer).wf(),
    ensures
        final(buffer).wf(),
        final(buffer).raw() == step_state(old(buffer).raw(), old(buffer).length(), byte).0,
        final(buffer).length() == step_state(old(buffer).raw(), old(buffer).length(), byte).1,
        reported_event(old(buffer).raw(), old(buffer).length(), byte, r),
        !is_line_end(byte) && !is_backspace(byte) && !is_printable(byte) ==> *final(buffer)
            == *old(buffer),
{
    if byte == 10 || byte == 13 {
        let bytes = buffer.snapshot();
        let text = decode_text(&bytes);
        buffer.reset();
        Some(Event::LineCompleted(CompletedLine { bytes, text }))
    } else if byte == 127 || byte == 8 {
        match buffer.delete_last() {
            Some(n) => Some(Event::ByteDeleted(n)),
            None => None,
        }
    } else if 32 <= byte && byte <= 126 {
        match buffer.append(byte) {
            Ok(n) => Some(Event::ByteAppended(n)),
            Err(BufferFull) => Some(Event::BufferFull),
        }
    } else {
        Some(Event::ByteIgnored)
    }
}

/// Feeding `a + b` is feeding `a`, then feeding `b` from the state reached.
pub proof fn lemma_feed_state_concat(raw: Seq<u8>, length: nat, a: Seq<u8>, b: Seq<u8>)
    ensures
        feed_state(raw, length, a + b) == feed_state(
            feed_state(raw, length, a).0,
            feed_state(raw, length, a).1,
            b,
        ),
    decreases a.len(),
{
    if a.len() == 0 {
        assert(a + b =~= b);
    } else {
        let next = step_state(raw, length, a[0]);
        assert((a + b).drop_first() =~= a.drop_first() + b);
        lemma_feed_state_concat(next.0, next.1, a.drop_first(), b);
    }
}

/// The lines of `a + b` are the lines of `a`, then the lines of `b` fed from
/// the state `a` reaches.
pub proof fn lemma_feed_lines_concat(raw: Seq<u8>, length: nat, a: Seq<u8>, b: Seq<u8>)
    ensures
        feed_lines(raw, length, a + b) == feed_lines(raw, length, a) + feed_lines(
            feed_state(raw, length, a).0,
            feed_state(raw, length, a).1,
            b,
        ),
    decreases a.len(),
{
    if a.len() == 0 {
        assert(a + b =~= b);
        assert(feed_lines(raw, length, a) + feed_lines(raw, length, b) =~= feed_lines(
            raw,
            length,
            b,
        ));
    } else {
        let next = step_state(raw, length, a[0]);
        assert((a + b).drop_first() =~= a.drop_first() + b);
        lemma_feed_lines_concat(next.0, next.1, a.drop_first(), b);
        assert(step_lines(raw, length, a[0]) + (feed_lines(next.0, next.1, a.drop_first())
            + feed_lines(feed_state(raw, length, a).0, feed_state(raw, length, a).1, b)) =~= (
        step_lines(raw, length, a[0]) + feed_lines(next.0, next.1, a.drop_first())) + feed_lines(
            feed_state(raw, length, a).0,
            feed_state(raw, length, a).1,
            b,
        ));
    }
}

/// One more byte steps the state that the prefix before it reached.
pub proof fn lemma_feed_state_snoc(raw: Seq<u8>, length: nat, bytes: Seq<u8>, k: int)
    requires
        0 <= k < bytes.len(),
    ensures
        feed_state(raw, length, bytes.take(k + 1)) == step_state(
            feed_state(raw, length, bytes.take(k)).0,
            feed_state(raw, length, bytes.take(k)).1,
            bytes[k],
        ),
{
    let a = bytes.take(k);
    let single = seq![bytes[k]];
    assert(bytes.take(k + 1) =~= a + single);
    lemma_feed_state_concat(raw, length, a, single);
    let s = feed_state(raw, length, a);
    let st = step_state(s.0, s.1, single[0]);
    assert(single.drop_first() =~= Seq::<u8>::empty());
    assert(feed_state(s.0, s.1, single) == feed_state(st.0, st.1, single.drop_first()));
}

/// One more byte adds exactly the lines it completes against the state that
/// the prefix before it reached.
pub proof fn lemma_feed_lines_snoc(raw: Seq<u8>, length: nat, bytes: Seq<u8>, k: int)
    requires
        0 <= k < bytes.len(),
    ensures
        feed_lines(raw, length, bytes.take(k + 1)) == feed_lines(raw, length, bytes.take(k))
            + step_lines(
            feed_state(raw, length, bytes.take(k)).0,
            feed_state(raw, length, bytes.take(k)).1,
            bytes[k],
        ),
{
    let a = bytes.take(k);
    let single = seq![bytes[k]];
    assert(bytes.take(k + 1) =~= a + single);
    lemma_feed_lines_concat(raw, length, a, single);
    let s = feed_state(raw, length, a);
    let st = step_state(s.0, s.1, single[0]);
    assert(single.drop_first() =~= Seq::<u8>::empty());
    assert(feed_lines(s.0, s.1, single) == step_lines(s.0, s.1, single[0]) + feed_lines(
        st.0,
        st.1,
        single.drop_first(),
    ));
    assert(step_lines(s.0, s.1, single[0]) + Seq::<Seq<u8>>::empty() =~= step_lines(
        s.0,
        s.1,
        single[0],
    ));
}

} // verus!
