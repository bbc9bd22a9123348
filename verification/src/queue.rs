//! Fixed-capacity ring buffer moving events from the interrupt handler to the
//! main loop.
//!
//! The queue owns its slot storage and keeps read/write cursors plus a count;
//! `push` fails with `Full` at capacity and `pop` fails with `Empty` at zero,
//! so neither ever blocks or grows. Viewed abstractly, the live elements form
//! the sequence `contents()`: `push` appends to its back and `pop` removes its
//! front, which is exactly first-in first-out order.

use vstd::prelude::*;

use crate::error::{OsError, OsErrorCode};

verus! {

/// Tagged event passed from interrupt context to the main loop.
#[derive(Clone, Copy, Debug, PartialEq, Eq, Structural)]
pub enum Message {
    InterruptXhci,
}

/// Ring buffer of fixed capacity over owned slot storage.
pub struct ArrayQueue<T> {
    pub data: Vec<T>,
    pub read_pos: usize,
    pub write_pos: usize,
    pub count: usize,
    pub capacity: usize,
}

impl<T> ArrayQueue<T> {
    /// Number of slots; fixed at construction.
    pub open spec fn capacity_spec(self) -> nat {
        self.capacity as nat
    }

    /// Slot index holding the i-th live element (0 = oldest).
    pub open spec fn slot_of(self, i: int) -> int {
        if self.read_pos + i < self.capacity {
            self.read_pos + i
        } else {
            self.read_pos + i - self.capacity
        }
    }

    /// Structural invariant: the cursors lie inside the storage and the write
    /// cursor sits one past the youngest live element.
    pub open spec fn wf(self) -> bool {
        &&& self.capacity == self.data@.len()
        &&& self.count <= self.capacity
        &&& (self.capacity > 0 ==> self.read_pos < self.capacity)
        &&& (self.capacity > 0 ==> self.write_pos == self.slot_of(self.count as int))
        &&& (self.capacity == 0 ==> self.read_pos == 0 && self.write_pos == 0 && self.count == 0)
    }

    /// The live elements in arrival order, oldest first.
    pub open spec fn contents(self) -> Seq<T> {
        Seq::new(self.count as nat, |i: int| self.data@[self.slot_of(i)])
    }

    /// Builds a queue over the given slot storage; its length fixes the
    /// capacity, and the queue starts empty.
    pub fn new(data: Vec<T>) -> (q: ArrayQueue<T>)
        ensures
            q.wf(),
            q.capacity_spec() == data@.len(),
            q.contents() =~= Seq::<T>::empty(),
            q.read_pos == 0,
            q.write_pos == 0,
    {
        let capacity = data.len();
        ArrayQueue { data, read_pos: 0, write_pos: 0, count: 0, capacity }
    }

    /// Appends `value` behind the youngest element; fails with `Full`, leaving
    /// the queue unchanged, exactly when the queue already holds `capacity`
    /// elements.
    pub fn push(&mut self, value: T) -> (r: Result<(), OsError>)
        requires
            old(self).wf(),
        ensures
            final(self).wf(),
            final(self).capacity_spec() == old(self).capacity_spec(),
            match r {
                Ok(()) => {
                    &&& old(self).contents().len() < old(self).capacity_spec()
                    &&& final(self).contents() =~= old(self).contents().push(value)
                },
                Err(e) => {
                    &&& e.code == OsErrorCode::Full
                    &&& old(self).contents().len() == old(self).capacity_spec()
                    &&& *final(self) == *old(self)
                },
            },
    {
        if self.count == self.capacity {
            return Err(OsError::new(OsErrorCode::Full));
        }

        self.data.set(self.write_pos, value);
        self.count = self.count + 1;
        self.write_pos = self.write_pos + 1;
        if self.write_pos == self.capacity {
            self.write_pos = 0;
        }

        proof {
            assert(final(self).contents() =~= old(self).contents().push(value));
        }
        Ok(())
    }

    /// Removes the oldest element and returns a reference to its slot; fails
    /// with `Empty`, leaving the queue unchanged, exactly when no element is
    /// live.
    pub fn pop(&mut self) -> (r: Result<&T, OsError>)
        requires
            old(self).wf(),
        ensures
            final(self).wf(),
            final(self).capacity_spec() == old(self).capacity_spec(),
            match r {
                Ok(v) => {
                    &&& old(self).contents().len() > 0
                    &&& *v == old(self).contents()[0]
                    &&& final(self).contents() =~= old(self).contents().drop_first()
                },
                Err(e) => {
                    &&& e.code == OsErrorCode::Empty
                    &&& old(self).contents().len() == 0
                    &&& *final(self) == *old(self)
                },
            },
    {
        if self.count == 0 {
            return Err(OsError::new(OsErrorCode::Empty));
        }

        let index = self.read_pos;
        self.count = self.count - 1;
        self.read_pos = self.read_pos + 1;
        if self.read_pos == self.capacity {
            self.read_pos = 0;
        }

        proof {
            assert(final(self).contents() =~= old(self).contents().drop_first());
        }
        Ok(&self.data[index])
    }

    /// Number of live elements.
    pub fn count(&mut self) -> (r: usize)
        ensures
            *final(self) == *old(self),
            r == old(self).contents().len(),
    {
        self.count
    }
}

} // verus!
