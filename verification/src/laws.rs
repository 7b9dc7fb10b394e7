use vstd::prelude::*;

verus! {

use crate::assembler::{
    feed_state, is_backspace, is_line_end, is_printable, lemma_feed_state_concat,
    lemma_feed_state_snoc, step_state,
};
use crate::buffer::{line_of, wf_state, zero_storage, LINE_CAPACITY};

/// One classified byte keeps the abstract buffer state well formed.
pub proof fn lemma_step_preserves_wf(raw: Seq<u8>, length: nat, byte: u8)
    requires
        wf_state(raw, length),
    ensures
        wf_state(step_state(raw, length, byte).0, step_state(raw, length, byte).1),
{
    assert(zero_storage().len() == LINE_CAPACITY);
}

/// A whole byte sequence keeps the abstract buffer state well formed.
pub proof fn lemma_feed_preserves_wf(raw: Seq<u8>, length: nat, bytes: Seq<u8>)
    requires
        wf_state(raw, length),
    ensures
        wf_state(feed_state(raw, length, bytes).0, feed_state(raw, length, bytes).1),
    decreases bytes.len(),
{
    if bytes.len() > 0 {
        let next = step_state(raw, length, bytes[0]);
        lemma_step_preserves_wf(raw, length, bytes[0]);
        lemma_feed_preserves_wf(next.0, next.1, bytes.drop_first());
    }
}

/// However long the input and whatever it holds, the cursor never exceeds
/// the capacity.
pub proof fn lemma_length_never_exceeds_capacity(raw: Seq<u8>, length: nat, bytes: Seq<u8>)
    requires
        wf_state(raw, length),
    ensures
        feed_state(raw, length, bytes).1 <= LINE_CAPACITY,
{
    lemma_feed_preserves_wf(raw, length, bytes);
}

/// Printable bytes that fit are all appended, in order: the accumulated line
/// is extended by exactly the bytes fed, and the cursor advances by their
/// count.
pub proof fn lemma_printable_feed_appends(raw: Seq<u8>, length: nat, bytes: Seq<u8>)
    requires
        wf_state(raw, length),
        length + bytes.len() <= LINE_CAPACITY,
        forall|i: int| 0 <= i < bytes.len() ==> is_printable(#[trigger] bytes[i]),
    ensures
        feed_state(raw, length, bytes).1 == length + bytes.len(),
        line_of(feed_state(raw, length, bytes).0, feed_state(raw, length, bytes).1) == line_of(
            raw,
            length,
        ) + bytes,
        wf_state(feed_state(raw, length, bytes).0, feed_state(raw, length, bytes).1),
    decreases bytes.len(),
{
    if bytes.len() == 0 {
        assert(line_of(raw, length) + bytes =~= line_of(raw, length));
    } else {
        let b = bytes[0];
        assert(!is_line_end(b) && !is_backspace(b));
        let next = step_state(raw, length, b);
        lemma_step_preserves_wf(raw, length, b);
        lemma_printable_feed_appends(next.0, next.1, bytes.drop_first());
        assert(line_of(next.0, next.1) =~= line_of(raw, length).push(b));
        assert(line_of(raw, length).push(b) + bytes.drop_first() =~= line_of(raw, length) + bytes);
    }
}

/// From a fresh buffer, after any prefix of a printable input that fits the
/// capacity, the accumulated line equals exactly the prefix fed so far and
/// the cursor equals its count.
pub proof fn lemma_printable_prefix(bytes: Seq<u8>, k: int)
    requires
        bytes.len() <= LINE_CAPACITY,
        forall|i: int| 0 <= i < bytes.len() ==> is_printable(#[trigger] bytes[i]),
        0 <= k <= bytes.len(),
    ensures
        feed_state(zero_storage(), 0, bytes.take(k)).1 == k,
        line_of(
            feed_state(zero_storage(), 0, bytes.take(k)).0,
            feed_state(zero_storage(), 0, bytes.take(k)).1,
        ) == bytes.take(k),
{
    assert(wf_state(zero_storage(), 0));
    lemma_printable_feed_appends(zero_storage(), 0, bytes.take(k));
    assert(line_of(zero_storage(), 0) + bytes.take(k) =~= bytes.take(k));
}

/// Printable input beyond the capacity is dropped: after the first
/// `LINE_CAPACITY` bytes the buffer is full and holds exactly those bytes,
/// and every later byte leaves it unchanged (the classifier then reports
/// `BufferFull` and the byte is lost).
pub proof fn lemma_overflow_drops(bytes: Seq<u8>, k: int)
    requires
        forall|i: int| 0 <= i < bytes.len() ==> is_printable(#[trigger] bytes[i]),
        LINE_CAPACITY <= k <= bytes.len(),
    ensures
        feed_state(zero_storage(), 0, bytes.take(k)).1 == LINE_CAPACITY,
        line_of(
            feed_state(zero_storage(), 0, bytes.take(k)).0,
            feed_state(zero_storage(), 0, bytes.take(k)).1,
        ) == bytes.take(LINE_CAPACITY as int),
        feed_state(zero_storage(), 0, bytes.take(k)) == feed_state(
            zero_storage(),
            0,
            bytes.take(LINE_CAPACITY as int),
        ),
    decreases k,
{
    if k == LINE_CAPACITY {
        lemma_printable_prefix(bytes.take(k), k);
        assert(bytes.take(k).take(k) =~= bytes.take(k));
        assert(forall|i: int|
            0 <= i < bytes.take(k).len() ==> is_printable(#[trigger] bytes.take(k)[i]));
    } else {
        lemma_overflow_drops(bytes, k - 1);
        lemma_feed_state_snoc(zero_storage(), 0, bytes, k - 1);
        let s = feed_state(zero_storage(), 0, bytes.take(k - 1));
        assert(is_printable(bytes[k - 1]));
        assert(step_state(s.0, s.1, bytes[k - 1]) == s);
    }
}

/// A backspace on an empty buffer is a silent no-op, however often repeated:
/// no error, no change to the cursor or the storage.
pub proof fn lemma_empty_backspace_noop(raw: Seq<u8>, bytes: Seq<u8>)
    requires
        forall|i: int| 0 <= i < bytes.len() ==> is_backspace(#[trigger] bytes[i]),
    ensures
        feed_state(raw, 0, bytes) == (raw, 0nat),
    decreases bytes.len(),
{
    if bytes.len() > 0 {
        assert(step_state(raw, 0, bytes[0]) == (raw, 0nat));
        lemma_empty_backspace_noop(raw, bytes.drop_first());
    }
}

/// Deleting as many bytes as the buffer holds empties it and leaves every
/// storage position zero.
pub proof fn lemma_delete_all(raw: Seq<u8>, length: nat, deletes: Seq<u8>)
    requires
        wf_state(raw, length),
        deletes.len() == length,
        forall|i: int| 0 <= i < deletes.len() ==> is_backspace(#[trigger] deletes[i]),
    ensures
        feed_state(raw, length, deletes) == (zero_storage(), 0nat),
    decreases length,
{
    if length == 0 {
        assert(raw =~= zero_storage());
    } else {
        let b = deletes[0];
        assert(!is_line_end(b) && !is_printable(b));
        let next = step_state(raw, length, b);
        lemma_step_preserves_wf(raw, length, b);
        lemma_delete_all(next.0, next.1, deletes.drop_first());
    }
}

/// Round trip: appending printable bytes to a fresh buffer and then deleting
/// as many returns it to the initial state, the cursor at zero and the whole
/// storage region zeroed.
pub proof fn lemma_append_delete_round_trip(appends: Seq<u8>, deletes: Seq<u8>)
    requires
        appends.len() <= LINE_CAPACITY,
        forall|i: int| 0 <= i < appends.len() ==> is_printable(#[trigger] appends[i]),
        deletes.len() == appends.len(),
        forall|i: int| 0 <= i < deletes.len() ==> is_backspace(#[trigger] deletes[i]),
    ensures
        feed_state(zero_storage(), 0, appends + deletes) == (zero_storage(), 0nat),
{
    assert(wf_state(zero_storage(), 0));
    lemma_feed_state_concat(zero_storage(), 0, appends, deletes);
    lemma_printable_feed_appends(zero_storage(), 0, appends);
    let s = feed_state(zero_storage(), 0, appends);
    lemma_delete_all(s.0, s.1, deletes);
}

/// A line terminator always resets: whatever the state, and whether or not
/// the accumulated bytes decoded as text, the step leaves the cursor at zero
/// and the whole storage region zeroed.
pub proof fn lemma_line_end_resets(raw: Seq<u8>, length: nat, byte: u8)
    requires
        is_line_end(byte),
    ensures
        step_state(raw, length, byte) == (zero_storage(), 0nat),
{
}

} // verus!
