use vstd::prelude::*;

verus! {

/// Fixed capacity of a line buffer, in bytes.
pub const LINE_CAPACITY: usize = 128;

/// Error returned by `LineBuffer::append` when the buffer already holds
/// `LINE_CAPACITY` bytes; the offered byte is dropped.
#[derive(Clone, Copy, Debug, PartialEq, Eq, Structural)]
pub struct BufferFull;

/// The storage of a buffer that holds nothing: `LINE_CAPACITY` zero bytes.
pub open spec fn zero_storage() -> Seq<u8> {
    Seq::new(LINE_CAPACITY as nat, |i: int| 0u8)
}

/// The valid region of an abstract buffer state `(raw, length)`.
pub open spec fn line_of(raw: Seq<u8>, length: nat) -> Seq<u8> {
    raw.take(length as int)
}

/// Well-formedness of an abstract buffer state `(raw, length)`: fixed
/// capacity, cursor in bounds, and nothing but zeros at or past the cursor.
pub open spec fn wf_state(raw: Seq<u8>, length: nat) -> bool {
    &&& raw.len() == LINE_CAPACITY
    &&& length <= LINE_CAPACITY
    &&& forall|i: int| length <= i < LINE_CAPACITY ==> raw[i] == 0
}

/// A fixed-capacity byte region plus a cursor.
///
/// The cursor `length` counts the valid bytes, which sit at indices
/// `[0, length)`. Every byte at or past the cursor is kept at zero by each
/// operation that shrinks or resets the buffer, so a reader of the raw
/// storage never sees stale data.
pub struct LineBuffer {
    storage: Vec<u8>,
    length: usize,
}

impl LineBuffer {
    /// The full storage region, valid prefix and zeroed tail together.
    pub closed spec fn raw(self) -> Seq<u8> {
        self.storage@
    }

    /// The count of valid bytes.
    pub closed spec fn length(self) -> nat {
        self.length as nat
    }

    /// The valid region: the line accumulated so far.
    pub open spec fn line(self) -> Seq<u8> {
        line_of(self.raw(), self.length())
    }

    /// Well-formedness: the abstract state `(raw, length)` is well formed.
    pub open spec fn wf(self) -> bool {
        wf_state(self.raw(), self.length())
    }

    /// A fresh buffer: empty, with every storage byte zero.
    pub fn new() -> (r: LineBuffer)
        ensures
            r.wf(),
            r.length() == 0,
            r.raw() == zero_storage(),
    {
        let mut storage: Vec<u8> = Vec::new();
        while storage.len() < LINE_CAPACITY
            invariant
                storage@.len() <= LINE_CAPACITY,
                forall|i: int| 0 <= i < storage@.len() ==> storage@[i] == 0,
            decreases LINE_CAPACITY - storage@.len(),
        {
            storage.push(0u8);
        }
        proof {
            assert(storage@ =~= zero_storage());
        }
        LineBuffer { storage, length: 0 }
    }

    /// The number of valid bytes held.
    pub fn len(&self) -> (r: usize)
        ensures
            r == self.length(),
    {
        self.length
    }

    /// The fixed capacity.
    pub fn capacity(&self) -> (r: usize)
        ensures
            r == LINE_CAPACITY,
    {
        LINE_CAPACITY
    }

    /// Writes `byte` at the cursor and advances it, returning the new count
    /// of valid bytes; when the buffer is full the byte is dropped, the
    /// buffer is left unchanged, and `BufferFull` is returned.
    pub fn append(&mut self, byte: u8) -> (r: Result<usize, BufferFull>)
        requires
            old(self).wf(),
        ensures
            final(self).wf(),
            old(self).length() < LINE_CAPACITY ==> {
                &&& r == Ok::<usize, BufferFull>(((old(self).length() + 1) as usize))
                &&& final(self).length() == old(self).length() + 1
                &&& final(self).raw() == old(self).raw().update(old(self).length() as int, byte)
                &&& final(self).line() == old(self).line().push(byte)
            },
            old(self).length() == LINE_CAPACITY ==> {
                &&& r == Err::<usize, BufferFull>(BufferFull)
                &&& *final(self) == *old(self)
            },
    {
        if self.length < LINE_CAPACITY {
            self.storage.set(self.length, byte);
            self.length = self.length + 1;
            proof {
                assert(self.line() =~= old(self).line().push(byte));
            }
            Ok(self.length)
        } else {
            Err(BufferFull)
        }
    }

    /// Zeroes the byte just before the cursor and retreats the cursor,
    /// returning the new count of valid bytes; on an empty buffer this is a
    /// no-op (not an error) and returns nothing.
    pub fn delete_last(&mut self) -> (r: Option<usize>)
        requires
            old(self).wf(),
        ensures
            final(self).wf(),
            old(self).length() > 0 ==> {
                &&& r == Some::<usize>(((old(self).length() - 1) as usize))
                &&& final(self).length() == old(self).length() - 1
                &&& final(self).raw() == old(self).raw().update(old(self).length() - 1, 0u8)
                &&& final(self).line() == old(self).line().drop_last()
            },
            old(self).length() == 0 ==> {
                &&& r == None::<usize>
                &&& *final(self) == *old(self)
            },
    {
        if self.length > 0 {
            self.length = self.length - 1;
            self.storage.set(self.length, 0u8);
            proof {
                assert(self.line() =~= old(self).line().drop_last());
            }
            Some(self.length)
        } else {
            None
        }
    }

    /// Moves the cursor to zero and zero-fills the whole storage region, so
    /// no stale byte can leak into a later snapshot.
    pub fn reset(&mut self)
        requires
            old(self).wf(),
        ensures
            final(self).wf(),
            final(self).length() == 0,
            final(self).raw() == zero_storage(),
    {
        self.length = 0;
        let mut i: usize = 0;
        while i < LINE_CAPACITY
            invariant
                self.storage@.len() == LINE_CAPACITY,
                i <= LINE_CAPACITY,
                forall|j: int| 0 <= j < i ==> self.storage@[j] == 0,
                self.length == 0,
            decreases LINE_CAPACITY - i,
        {
            self.storage.set(i, 0u8);
            i = i + 1;
        }
        proof {
            assert(self.raw() =~= zero_storage());
        }
    }

    /// A copy of the valid region `storage[0..length]`: the line accumulated
    /// so far.
    pub fn snapshot(&self) -> (r: Vec<u8>)
        requires
            self.wf(),
        ensures
            r@ == self.line(),
    {
        let mut r: Vec<u8> = Vec::new();
        let mut i: usize = 0;
        while i < self.length
            invariant
                self.wf(),
                i <= self.length(),
                r@ == self.line().take(i as int),
            decreases self.length() - i,
        {
            r.push(self.storage[i]);
            proof {
                assert(r@ =~= self.line().take(i + 1));
            }
            i = i + 1;
        }
        proof {
            assert(self.line().take(self.length() as int) =~= self.line());
        }
        r
    }

    /// A copy of the whole storage region, the zeroed tail included; lets a
    /// consumer check that nothing stale sits past the cursor.
    pub fn storage_snapshot(&self) -> (r: Vec<u8>)
        requires
            self.wf(),
        ensures
            r@ == self.raw(),
    {
        let mut r: Vec<u8> = Vec::new();
        let mut i: usize = 0;
        while i < LINE_CAPACITY
            invariant
                self.wf(),
                i <= LINE_CAPACITY,
                r@ == self.raw().take(i as int),
            decreases LINE_CAPACITY - i,
        {
            r.push(self.storage[i]);
            proof {
                assert(r@ =~= self.raw().take(i + 1));
            }
            i = i + 1;
        }
        proof {
            assert(self.raw().take(LINE_CAPACITY as int) =~= self.raw());
        }
        r
    }
}

} // verus!
