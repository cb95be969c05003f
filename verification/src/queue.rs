//! A bounded ring of `Copy` values that drops its oldest value to make room for a new one.

use std::marker::PhantomData;
use vstd::prelude::*;

verus! {

/// Why a ring could not be made.
#[derive(Clone, Copy, Debug, PartialEq, Eq, Structural)]
pub enum QueueError {
    /// A ring needs at least one slot.
    ZeroCapacity,
    /// The number of slots is not a power of two.
    NotPowerOfTwo,
    /// The allocator refused the memory for the slots.
    AllocationFailed,
}

impl QueueError {
    /// The text of the error.
    pub open spec fn text(self) -> Seq<char> {
        match self {
            QueueError::ZeroCapacity => "Capacity must be greater than 0"@,
            QueueError::NotPowerOfTwo => "Capacity must be power of 2"@,
            QueueError::AllocationFailed => "Memory allocation failed"@,
        }
    }

    /// The text of the error, for people.
    pub fn message(&self) -> (m: &'static str)
        ensures
            m@ == self.text(),
    {
        match self {
            QueueError::ZeroCapacity => "Capacity must be greater than 0",
            QueueError::NotPowerOfTwo => "Capacity must be power of 2",
            QueueError::AllocationFailed => "Memory allocation failed",
        }
    }

    /// Whether the caller asked for something that no ring can have, as against a refusal by
    /// the machine.
    pub fn is_invalid_input(&self) -> (b: bool)
        ensures
            b == (self is ZeroCapacity || self is NotPowerOfTwo),
    {
        match self {
            QueueError::AllocationFailed => false,
            _ => true,
        }
    }
}

/// The last `n` values of `s`, or all of `s` where it holds no more than that.
pub open spec fn keep_last<T>(s: Seq<T>, n: nat) -> Seq<T> {
    if s.len() <= n {
        s
    } else {
        s.skip(s.len() - n)
    }
}

/// `a` if it is the smaller of the two, else `b`.
pub open spec fn at_most(a: nat, b: nat) -> nat {
    if a <= b {
        a
    } else {
        b
    }
}

/// Whether `capacity` is a power of two, told from its bits.
fn is_power_of_two(capacity: usize) -> (b: bool)
    requires
        capacity > 0,
    ensures
        b == vstd::arithmetic::power2::is_pow2(capacity as int),
{
    proof {
        lemma_power_of_two_bits(capacity);
    }
    capacity & (capacity - 1) == 0
}

/// A positive number is a power of two exactly when it shares no bit with its predecessor.
proof fn lemma_power_of_two_bits(c: usize)
    requires
        c > 0,
    ensures
        vstd::arithmetic::power2::is_pow2(c as int) <==> c & ((c - 1) as usize) == 0,
    decreases c,
{
    reveal(vstd::arithmetic::power2::is_pow2);
    let pred: usize = (c - 1) as usize;
    if c == 1 {
        assert(1usize & 0usize == 0) by (bit_vector);
    } else if c % 2 == 0 {
        let half: usize = c / 2;
        let half_pred: usize = (half - 1) as usize;
        lemma_power_of_two_bits(half);
        assert(c & pred == 0 <==> half & half_pred == 0) by (bit_vector)
            requires
                c % 2 == 0,
                c == pred + 1,
                half == c / 2,
                half == half_pred + 1,
        ;
    } else {
        assert(c & pred != 0) by (bit_vector)
            requires
                c > 1,
                c % 2 == 1,
                c == pred + 1,
        ;
    }
}

/// Stepping forward by one under the mask of a power of two goes round at the end.
proof fn lemma_mask_wraps(current: usize, capacity: usize)
    requires
        capacity > 0,
        capacity & ((capacity - 1) as usize) == 0,
        current < capacity,
    ensures
        ((current + 1) as usize) & ((capacity - 1) as usize) == (if current + 1 == capacity {
            0usize
        } else {
            (current + 1) as usize
        }),
{
    let next: usize = (current + 1) as usize;
    let mask: usize = (capacity - 1) as usize;
    if next == capacity {
    } else {
        assert(next & mask == next) by (bit_vector)
            requires
                capacity & mask == 0,
                capacity == mask + 1,
                next < capacity,
        ;
    }
}

/// A ring of `capacity` slots, of which `capacity - 1` can hold values at the same time.
///
/// The view is the values that wait to be read, oldest first.
pub struct RWRoundQueue<T: Copy> {
    slots: Vec<Option<T>>,
    capacity: usize,
    read_idx: usize,
    write_idx: usize,
}

impl<T: Copy> View for RWRoundQueue<T> {
    type V = Seq<T>;

    closed spec fn view(&self) -> Seq<T> {
        Seq::new(self.count(), |i: int| self.slots@[self.position(i)]->Some_0)
    }
}

impl<T: Copy> RWRoundQueue<T> {
    /// The number of slots.
    pub closed spec fn slot_count(self) -> nat {
        self.capacity as nat
    }

    /// The value that lies in the slot which the next write takes, if one was ever put there.
    pub closed spec fn staged(self) -> Option<T> {
        self.slots@[self.write_idx as int]
    }

    /// The slot that the next read takes.
    pub closed spec fn read_slot(self) -> usize {
        self.read_idx
    }

    /// The slot that the next write takes.
    pub closed spec fn write_slot(self) -> usize {
        self.write_idx
    }

    /// Whether the next write pushes out the oldest value.
    pub open spec fn is_full(self) -> bool {
        self@.len() + 1 == self.slot_count()
    }

    /// How many values wait to be read.
    spec fn count(self) -> nat {
        if self.write_idx >= self.read_idx {
            (self.write_idx - self.read_idx) as nat
        } else {
            (self.capacity - self.read_idx + self.write_idx) as nat
        }
    }

    /// The slot of the value that is `i` places behind the oldest.
    spec fn position(self, i: int) -> int {
        if self.read_idx + i < self.capacity {
            self.read_idx + i
        } else {
            self.read_idx + i - self.capacity
        }
    }

    /// The indices lie inside the ring, the number of slots is a power of two, and every slot
    /// between the two indices holds a value.
    pub closed spec fn wf(self) -> bool {
        &&& self.slots@.len() == self.capacity
        &&& vstd::arithmetic::power2::is_pow2(self.capacity as int)
        &&& 0 < self.capacity
        &&& self.read_idx < self.capacity
        &&& self.write_idx < self.capacity
        &&& forall|i: int|
            0 <= i < self.count() ==> #[trigger] self.slots@[self.position(i)] is Some
    }

    /// The slot after `current`, going round at the end.
    pub open spec fn following(self, current: usize) -> usize {
        if current + 1 == self.slot_count() {
            0
        } else {
            (current + 1) as usize
        }
    }

    /// The slot that is `n` slots after `current`, going round at the end.
    pub open spec fn advanced(self, current: usize, n: nat) -> usize
        decreases n,
    {
        if n == 0 {
            current
        } else {
            self.following(self.advanced(current, (n - 1) as nat))
        }
    }

    /// Makes an empty ring of `capacity` slots.
    ///
    /// The allocator decides whether the memory for a proper capacity can be had; what it
    /// answers is settled by `with_reservation`.
    pub fn new(capacity: usize) -> (r: Result<Self, QueueError>)
        ensures
            capacity == 0 <==> r == Err::<Self, QueueError>(QueueError::ZeroCapacity),
            capacity > 0 && !vstd::arithmetic::power2::is_pow2(capacity as int) <==> r == Err::<
                Self,
                QueueError,
            >(QueueError::NotPowerOfTwo),
            r matches Ok(q) ==> q.wf() && q@ == Seq::<T>::empty() && q.slot_count() == capacity,
    {
        if capacity == 0 {
            return Err(QueueError::ZeroCapacity);
        }
        if !is_power_of_two(capacity) {
            return Err(QueueError::NotPowerOfTwo);
        }
        let mut slots: Vec<Option<T>> = Vec::new();
        let granted = slots.try_reserve(capacity).is_ok();
        Self::with_reservation(capacity, slots, granted)
    }

    /// Makes the ring of `capacity` slots in `slots`, or fails where the allocator did not
    /// grant the memory.
    pub fn with_reservation(capacity: usize, slots: Vec<Option<T>>, granted: bool) -> (r: Result<
        Self,
        QueueError,
    >)
        requires
            vstd::arithmetic::power2::is_pow2(capacity as int),
            slots@.len() == 0,
        ensures
            !granted <==> r is Err,
            !granted ==> r == Err::<Self, QueueError>(QueueError::AllocationFailed),
            r matches Ok(q) ==> q.wf() && q@ == Seq::<T>::empty() && q.slot_count() == capacity,
    {
        if !granted {
            return Err(QueueError::AllocationFailed);
        }
        let mut slots = slots;
        let mut i: usize = 0;
        while i < capacity
            invariant
                i <= capacity,
                slots@.len() == i,
            decreases capacity - i,
        {
            slots.push(None);
            i += 1;
        }
        proof {
            reveal(vstd::arithmetic::power2::is_pow2);
        }
        let q = RWRoundQueue { slots, capacity, read_idx: 0, write_idx: 0 };
        assert(q@ =~= Seq::<T>::empty());
        Ok(q)
    }

    /// The slot after `current`, going round at the end.
    fn next_index(&self, current: usize) -> (next: usize)
        requires
            self.wf(),
            current < self.slot_count(),
        ensures
            next == self.following(current),
    {
        proof {
            lemma_power_of_two_bits(self.capacity);
            lemma_mask_wraps(current, self.capacity);
        }
        (current + 1) & (self.capacity - 1)
    }

    /// The slot of the oldest value, without taking the value.
    pub fn acquire_read_ptr(&self) -> (slot: Option<usize>)
        requires
            self.wf(),
        ensures
            slot == (if self@.len() == 0 {
                None
            } else {
                Some(self.read_slot())
            }),
            slot matches Some(s) ==> s < self.slot_count(),
    {
        if self.read_idx == self.write_idx {
            return None;
        }
        Some(self.read_idx)
    }

    /// The value in the slot that `acquire_read_ptr` gave.
    pub fn value_at(&self, slot: usize) -> (value: T)
        requires
            self.wf(),
            self@.len() > 0,
            slot == self.read_slot(),
        ensures
            value == self@[0],
    {
        assert(self.slots@[self.position(0)] is Some);
        self.slots[slot].unwrap()
    }

    /// Gives up the oldest value.
    pub fn commit_read(&mut self)
        requires
            old(self).wf(),
            old(self)@.len() > 0,
        ensures
            final(self).wf(),
            final(self).slot_count() == old(self).slot_count(),
            final(self)@ == old(self)@.skip(1),
            final(self).read_slot() == old(self).following(old(self).read_slot()),
            final(self).write_slot() == old(self).write_slot(),
            final(self).staged() == old(self).staged(),
    {
        let ghost before = *self;
        let next_read = self.next_index(self.read_idx);
        self.read_idx = next_read;
        proof {
            lemma_read_advances(before, *self);
        }
    }
}

/// Moving the read index one slot on gives up the oldest value.
proof fn lemma_read_advances<T: Copy>(before: RWRoundQueue<T>, after: RWRoundQueue<T>)
    requires
        before.wf(),
        before.count() > 0,
        after.slots == before.slots,
        after.capacity == before.capacity,
        after.write_idx == before.write_idx,
        after.read_idx == before.following(before.read_idx),
    ensures
        after.wf(),
        after@ == before@.skip(1),
{
    assert(after.count() == before.count() - 1);
    assert forall|i: int| 0 <= i < after.count() implies #[trigger] after.slots@[after.position(
        i,
    )] is Some by {
        assert(after.position(i) == before.position(i + 1));
        assert(before.slots@[before.position(i + 1)] is Some);
    }
    assert forall|i: int| 0 <= i < after.count() implies after@[i] == before@.skip(1)[i] by {
        assert(after.position(i) == before.position(i + 1));
    }
    assert(after@ =~= before@.skip(1));
}

/// Moving the write index one slot on makes the staged value the newest one, unless the ring
/// was full: then the index catches up with the read index and nothing is left to read.
proof fn lemma_write_advances<T: Copy>(before: RWRoundQueue<T>, after: RWRoundQueue<T>)
    requires
        before.wf(),
        before.staged() is Some,
        after.slots == before.slots,
        after.capacity == before.capacity,
        after.read_idx == before.read_idx,
        after.write_idx == before.following(before.write_idx),
    ensures
        after.wf(),
        before.is_full() ==> after@ == Seq::<T>::empty(),
        !before.is_full() ==> after@ == before@.push(before.staged()->Some_0),
{
    if before.is_full() {
        assert(after.count() == 0);
        assert(after@ =~= Seq::<T>::empty());
    } else {
        assert(after.count() == before.count() + 1);
        assert(after.position(before.count() as int) == before.write_idx);
        assert forall|i: int| 0 <= i < after.count() implies #[trigger] after.slots@[after.position(
            i,
        )] is Some by {
            if i < before.count() {
                assert(before.slots@[before.position(i)] is Some);
            }
        }
        assert(after@ =~= before@.push(before.staged()->Some_0));
    }
}

/// What waits to be read once a staged value is handed over.
///
/// `was_full` tells whether the oldest value is to be given up for it. A value that is handed
/// over as if there were room, while there is none, wipes the ring; one that is handed over as
/// if there were none, while the ring is empty, is lost.
pub open spec fn after_commit<T>(
    waiting: Seq<T>,
    slots: nat,
    staged: T,
    was_full: bool,
) -> Seq<T> {
    if was_full {
        if waiting.len() == 0 {
            Seq::empty()
        } else {
            waiting.skip(1).push(staged)
        }
    } else if waiting.len() + 1 == slots {
        Seq::empty()
    } else {
        waiting.push(staged)
    }
}

impl<T: Copy> RWRoundQueue<T> {
    /// The slot that the next write takes, and whether that write pushes out the oldest value.
    pub fn acquire_write_ptr(&self) -> (slot: Option<(usize, bool)>)
        requires
            self.wf(),
        ensures
            slot == Some((self.write_slot(), self.is_full())),
            self.write_slot() < self.slot_count(),
    {
        let next_write = self.next_index(self.write_idx);
        let was_full = next_write == self.read_idx;
        Some((self.write_idx, was_full))
    }

    /// Puts `value` into the slot that `acquire_write_ptr` gave. No reader sees it before
    /// `commit_write`.
    pub fn put_at(&mut self, slot: usize, value: T)
        requires
            old(self).wf(),
            slot == old(self).write_slot(),
        ensures
            final(self).wf(),
            final(self).slot_count() == old(self).slot_count(),
            final(self).read_slot() == old(self).read_slot(),
            final(self).write_slot() == old(self).write_slot(),
            final(self)@ == old(self)@,
            final(self).staged() == Some(value),
    {
        let ghost before = *self;
        self.slots[slot] = Some(value);
        proof {
            assert forall|i: int| 0 <= i < self.count() implies #[trigger] self.slots@[self.position(
                i,
            )] is Some by {
                assert(before.slots@[before.position(i)] is Some);
            }
            assert(self@ =~= before@);
        }
    }

    /// Hands the staged value to the reader; `was_full` is what `acquire_write_ptr` told.
    pub fn commit_write(&mut self, was_full: bool)
        requires
            old(self).wf(),
            old(self).staged() is Some,
        ensures
            final(self).wf(),
            final(self).slot_count() == old(self).slot_count(),
            final(self)@ == after_commit(
                old(self)@,
                old(self).slot_count(),
                old(self).staged()->Some_0,
                was_full,
            ),
            final(self).write_slot() == old(self).following(old(self).write_slot()),
            final(self).read_slot() == (if was_full {
                old(self).following(old(self).read_slot())
            } else {
                old(self).read_slot()
            }),
    {
        let ghost before = *self;
        let next_write = self.next_index(self.write_idx);
        let next_read = self.next_index(self.read_idx);
        if was_full {
            self.read_idx = next_read;
        }
        self.write_idx = next_write;
        proof {
            if was_full && before.count() > 0 {
                let middle = RWRoundQueue { read_idx: next_read, ..before };
                lemma_read_advances(before, middle);
                lemma_write_advances(middle, *self);
            } else if was_full {
                assert(self@ =~= Seq::<T>::empty());
            } else {
                lemma_write_advances(before, *self);
            }
        }
    }

    /// How many values wait to be read.
    pub fn len(&self) -> (n: usize)
        requires
            self.wf(),
        ensures
            n == self@.len(),
            n < self.slot_count(),
    {
        if self.write_idx >= self.read_idx {
            self.write_idx - self.read_idx
        } else {
            self.capacity - self.read_idx + self.write_idx
        }
    }

    /// Whether nothing waits to be read.
    pub fn is_empty(&self) -> (b: bool)
        requires
            self.wf(),
        ensures
            b == (self@.len() == 0),
    {
        self.read_idx == self.write_idx
    }

    /// The number of slots, one more than the ring can hold at the same time.
    pub fn capacity(&self) -> (n: usize)
        ensures
            n == self.slot_count(),
    {
        self.capacity
    }

    /// The first slot of the ring.
    pub fn start_ptr(&self) -> (slot: usize)
        ensures
            slot == 0,
    {
        0
    }

    /// One past the last slot of the ring.
    pub fn end_ptr(&self) -> (slot: usize)
        ensures
            slot == self.slot_count(),
    {
        self.capacity
    }

    /// Takes the oldest value, if there is one.
    pub fn try_read(&mut self) -> (value: Option<T>)
        requires
            old(self).wf(),
        ensures
            final(self).wf(),
            final(self).slot_count() == old(self).slot_count(),
            old(self)@.len() == 0 ==> value is None && final(self)@ == old(self)@,
            old(self)@.len() > 0 ==> value == Some(old(self)@[0]) && final(self)@ == old(
                self,
            )@.skip(1),
            final(self).staged() == old(self).staged(),
            final(self).write_slot() == old(self).write_slot(),
            final(self).read_slot() == (if old(self)@.len() > 0 {
                old(self).following(old(self).read_slot())
            } else {
                old(self).read_slot()
            }),
    {
        match self.acquire_read_ptr() {
            None => None,
            Some(slot) => {
                let value = self.value_at(slot);
                self.commit_read();
                Some(value)
            },
        }
    }

    /// Writes a value, giving up the oldest one where there is no room; tells whether it did.
    ///
    /// A ring of a single slot has no room at all: it stays empty, and there is never an older
    /// value to give up.
    pub fn write_overwrite(&mut self, value: T) -> (overwrote: bool)
        requires
            old(self).wf(),
        ensures
            final(self).wf(),
            final(self).slot_count() == old(self).slot_count(),
            overwrote == (old(self).is_full() && old(self)@.len() > 0),
            final(self)@ == keep_last(
                old(self)@.push(value),
                (old(self).slot_count() - 1) as nat,
            ),
            final(self).write_slot() == old(self).following(old(self).write_slot()),
            final(self).read_slot() == (if old(self).is_full() {
                old(self).following(old(self).read_slot())
            } else {
                old(self).read_slot()
            }),
    {
        let holds_some = !self.is_empty();
        let (slot, was_full) = self.acquire_write_ptr().unwrap();
        self.put_at(slot, value);
        self.commit_write(was_full);
        assert(self@ =~= keep_last(old(self)@.push(value), (old(self).slot_count() - 1) as nat));
        was_full && holds_some
    }

    /// The two ends of the ring, for the side that reads and the side that writes.
    ///
    /// Each end works on the ring that is handed to it, so that the two may live apart.
    pub fn split(&mut self) -> (ends: (QueueReader<T>, QueueWriter<T>))
        ensures
            *final(self) == *old(self),
            ends.1.slot_count() == old(self).slot_count(),
    {
        let reader = QueueReader { marker: PhantomData };
        let writer = QueueWriter { capacity: self.capacity, marker: PhantomData };
        (reader, writer)
    }
}

/// The end of a ring that only reads.
pub struct QueueReader<T: Copy> {
    marker: PhantomData<T>,
}

impl<T: Copy> QueueReader<T> {
    /// Takes the oldest value of `queue`, if there is one.
    pub fn read(&self, queue: &mut RWRoundQueue<T>) -> (value: Option<T>)
        requires
            old(queue).wf(),
        ensures
            final(queue).wf(),
            final(queue).slot_count() == old(queue).slot_count(),
            old(queue)@.len() == 0 ==> value is None && final(queue)@ == old(queue)@,
            old(queue)@.len() > 0 ==> value == Some(old(queue)@[0]) && final(queue)@ == old(
                queue,
            )@.skip(1),
            final(queue).staged() == old(queue).staged(),
            final(queue).write_slot() == old(queue).write_slot(),
            final(queue).read_slot() == (if old(queue)@.len() > 0 {
                old(queue).following(old(queue).read_slot())
            } else {
                old(queue).read_slot()
            }),
    {
        queue.try_read()
    }

    /// Takes the oldest values of `queue`, up to `max` of them, oldest first.
    pub fn read_batch(&self, queue: &mut RWRoundQueue<T>, max: usize) -> (batch: Vec<T>)
        requires
            old(queue).wf(),
        ensures
            final(queue).wf(),
            final(queue).slot_count() == old(queue).slot_count(),
            batch@ == old(queue)@.take(at_most(max as nat, old(queue)@.len()) as int),
            final(queue)@ == old(queue)@.skip(at_most(max as nat, old(queue)@.len()) as int),
            final(queue).staged() == old(queue).staged(),
            final(queue).write_slot() == old(queue).write_slot(),
            final(queue).read_slot() == old(queue).advanced(
                old(queue).read_slot(),
                at_most(max as nat, old(queue)@.len()),
            ),
    {
        let mut batch: Vec<T> = Vec::new();
        let ghost all = queue@;
        let mut i: usize = 0;
        while i < max
            invariant
                i <= max,
                i <= all.len(),
                all == old(queue)@,
                queue.wf(),
                queue.slot_count() == old(queue).slot_count(),
                batch@ == all.take(i as int),
                queue@ == all.skip(i as int),
                queue.staged() == old(queue).staged(),
                queue.write_slot() == old(queue).write_slot(),
                queue.read_slot() == old(queue).advanced(old(queue).read_slot(), i as nat),
            decreases max - i,
        {
            match self.read(queue) {
                Some(item) => {
                    batch.push(item);
                    assert(all.take(i + 1) =~= all.take(i as int).push(item));
                    assert(all.skip(i + 1) =~= all.skip(i as int).skip(1));
                },
                None => {
                    assert(at_most(max as nat, all.len()) == i);
                    return batch;
                },
            }
            i += 1;
        }
        batch
    }

    /// How many values wait in `queue`.
    pub fn len(&self, queue: &RWRoundQueue<T>) -> (n: usize)
        requires
            queue.wf(),
        ensures
            n == queue@.len(),
            n < queue.slot_count(),
    {
        queue.len()
    }

    /// Whether nothing waits in `queue`.
    pub fn is_empty(&self, queue: &RWRoundQueue<T>) -> (b: bool)
        requires
            queue.wf(),
        ensures
            b == (queue@.len() == 0),
    {
        queue.is_empty()
    }
}

/// The end of a ring that only writes.
pub struct QueueWriter<T: Copy> {
    capacity: usize,
    marker: PhantomData<T>,
}

impl<T: Copy> QueueWriter<T> {
    /// The number of slots of the ring that this end was split from.
    pub closed spec fn slot_count(self) -> nat {
        self.capacity as nat
    }

    /// The slot of `queue` that the next write takes, and whether that write pushes out the
    /// oldest value.
    pub fn acquire_ptr(&mut self, queue: &RWRoundQueue<T>) -> (slot: Option<(usize, bool)>)
        requires
            queue.wf(),
        ensures
            slot == Some((queue.write_slot(), queue.is_full())),
            queue.write_slot() < queue.slot_count(),
            *final(self) == *old(self),
    {
        queue.acquire_write_ptr()
    }

    /// Hands the value staged in `queue` to the reader; `was_full` is what `acquire_ptr` told.
    pub fn commit(&mut self, queue: &mut RWRoundQueue<T>, was_full: bool)
        requires
            old(queue).wf(),
            old(queue).staged() is Some,
        ensures
            *final(self) == *old(self),
            final(queue).wf(),
            final(queue).slot_count() == old(queue).slot_count(),
            final(queue)@ == after_commit(
                old(queue)@,
                old(queue).slot_count(),
                old(queue).staged()->Some_0,
                was_full,
            ),
            final(queue).write_slot() == old(queue).following(old(queue).write_slot()),
            final(queue).read_slot() == (if was_full {
                old(queue).following(old(queue).read_slot())
            } else {
                old(queue).read_slot()
            }),
    {
        queue.commit_write(was_full)
    }

    /// Writes a value to `queue`, giving up the oldest one where there is no room; tells
    /// whether it did.
    pub fn write(&mut self, queue: &mut RWRoundQueue<T>, value: T) -> (overwrote: bool)
        requires
            old(queue).wf(),
        ensures
            *final(self) == *old(self),
            final(queue).wf(),
            final(queue).slot_count() == old(queue).slot_count(),
            overwrote == (old(queue).is_full() && old(queue)@.len() > 0),
            final(queue)@ == keep_last(
                old(queue)@.push(value),
                (old(queue).slot_count() - 1) as nat,
            ),
            final(queue).write_slot() == old(queue).following(old(queue).write_slot()),
            final(queue).read_slot() == (if old(queue).is_full() {
                old(queue).following(old(queue).read_slot())
            } else {
                old(queue).read_slot()
            }),
    {
        queue.write_overwrite(value)
    }

    /// The number of slots of the ring that this end was split from.
    pub fn capacity(&self) -> (n: usize)
        ensures
            n == self.slot_count(),
    {
        self.capacity
    }
}

/// What waits to be read once `values` were written, one after the other, to a ring of `slots`
/// slots in which `waiting` waited.
pub open spec fn written<T>(waiting: Seq<T>, slots: nat, values: Seq<T>) -> Seq<T>
    decreases values.len(),
{
    if values.len() == 0 {
        waiting
    } else {
        keep_last(
            written(waiting, slots, values.drop_last()).push(values.last()),
            (slots - 1) as nat,
        )
    }
}

/// A ring never holds as many values as it has slots.
pub proof fn law_one_slot_stays_free<T: Copy>(queue: RWRoundQueue<T>)
    requires
        queue.wf(),
    ensures
        queue@.len() < queue.slot_count(),
{
}

/// However many values are written, the ring holds the newest of all it was ever given, in the
/// order in which they came, and only those for which there was no room are gone.
pub proof fn law_newest_values_stay<T>(waiting: Seq<T>, slots: nat, values: Seq<T>)
    requires
        waiting.len() < slots,
    ensures
        written(waiting, slots, values) == keep_last(waiting + values, (slots - 1) as nat),
    decreases values.len(),
{
    let room: nat = (slots - 1) as nat;
    if values.len() == 0 {
        assert(waiting + values =~= waiting);
    } else {
        law_newest_values_stay(waiting, slots, values.drop_last());
        let shorter = waiting + values.drop_last();
        assert(shorter.push(values.last()) =~= waiting + values);
        assert(keep_last(keep_last(shorter, room).push(values.last()), room) =~= keep_last(
            shorter.push(values.last()),
            room,
        ));
    }
}

/// While there is room, nothing is lost: what is read is what was written, in that order,
/// behind what waited before.
pub proof fn law_first_in_first_out<T>(waiting: Seq<T>, slots: nat, values: Seq<T>)
    requires
        waiting.len() + values.len() < slots,
    ensures
        written(waiting, slots, values) == waiting + values,
{
    law_newest_values_stay(waiting, slots, values);
}

/// Taking a slot, filling it and handing it over, with nothing in between, is one write.
pub proof fn law_three_steps_are_one_write<T>(waiting: Seq<T>, slots: nat, value: T)
    requires
        waiting.len() < slots,
    ensures
        after_commit(waiting, slots, value, waiting.len() + 1 == slots) == keep_last(
            waiting.push(value),
            (slots - 1) as nat,
        ),
{
    assert(after_commit(waiting, slots, value, waiting.len() + 1 == slots) =~= keep_last(
        waiting.push(value),
        (slots - 1) as nat,
    ));
}

/// A read that comes in between, when there is a value to read, takes the oldest value as it
/// would before or after: where there was room, it is as if the value had been handed over at
/// once; where there was none, the oldest value that is left is given up all the same.
pub proof fn law_a_read_may_come_between<T>(waiting: Seq<T>, slots: nat, value: T)
    requires
        0 < waiting.len() < slots,
    ensures
        waiting.len() + 1 < slots ==> after_commit(waiting.skip(1), slots, value, false)
            == after_commit(waiting, slots, value, false).skip(1),
        waiting.len() + 1 == slots && slots > 2 ==> after_commit(
            waiting.skip(1),
            slots,
            value,
            true,
        ) == after_commit(waiting, slots, value, true).skip(1),
        slots == 2 ==> after_commit(waiting.skip(1), slots, value, true).len() == 0,
{
    if waiting.len() + 1 < slots {
        assert(after_commit(waiting.skip(1), slots, value, false) =~= after_commit(
            waiting,
            slots,
            value,
            false,
        ).skip(1));
    } else if slots > 2 {
        assert(after_commit(waiting.skip(1), slots, value, true) =~= after_commit(
            waiting,
            slots,
            value,
            true,
        ).skip(1));
    }
}

/// The slots that are given for the next read and the next write lie inside the ring, and only a
/// ring that holds nothing gives the same one for both.
pub proof fn law_slots_lie_in_the_ring<T: Copy>(queue: RWRoundQueue<T>)
    requires
        queue.wf(),
    ensures
        queue.read_slot() < queue.slot_count(),
        queue.write_slot() < queue.slot_count(),
        queue.read_slot() == queue.write_slot() <==> queue@.len() == 0,
{
}

/// Two batches in a row are one batch of the joint size.
pub proof fn law_batches_join<T>(waiting: Seq<T>, first: nat, second: nat)
    ensures
        ({
            let a = at_most(first, waiting.len()) as int;
            let rest = waiting.skip(a);
            let b = at_most(second, rest.len()) as int;
            let both = at_most(first + second, waiting.len()) as int;
            waiting.take(a) + rest.take(b) == waiting.take(both) && rest.skip(b) == waiting.skip(
                both,
            )
        }),
{
    let a = at_most(first, waiting.len()) as int;
    let rest = waiting.skip(a);
    let b = at_most(second, rest.len()) as int;
    let both = at_most(first + second, waiting.len()) as int;
    assert(waiting.take(a) + rest.take(b) =~= waiting.take(both));
    assert(rest.skip(b) =~= waiting.skip(both));
}

/// The slot after another one is the next, counted round.
proof fn lemma_following_goes_round<T: Copy>(queue: RWRoundQueue<T>, current: usize)
    requires
        queue.wf(),
        current < queue.slot_count(),
    ensures
        queue.following(current) == (current + 1) % queue.slot_count() as int,
{
    let slots = queue.slot_count();
    if current + 1 == slots {
        vstd::arithmetic::div_mod::lemma_mod_self_0(slots as int);
    } else {
        vstd::arithmetic::div_mod::lemma_small_mod((current + 1) as nat, slots);
    }
}

/// A write puts its value behind all that waits; where there is room, nothing else changes, and
/// where there is none, the oldest value, if there is one, is given up for it, which is told.
pub proof fn law_a_write_gives_up_the_oldest_only<T: Copy>(
    queue: &mut RWRoundQueue<T>,
    value: T,
    overwrote: bool,
)
    requires
        call_ensures(RWRoundQueue::<T>::write_overwrite, (queue, value), overwrote),
        old(queue).wf(),
    ensures
        final(queue).slot_count() == old(queue).slot_count(),
        old(queue)@.len() + 1 < old(queue).slot_count() ==> final(queue)@ == old(queue)@.push(value)
            && !overwrote,
        old(queue)@.len() + 1 == old(queue).slot_count() && old(queue)@.len() > 0 ==> final(
            queue)@ == old(queue)@.skip(1).push(value) && overwrote,
        old(queue).slot_count() == 1 ==> final(queue)@.len() == 0 && !overwrote,
        final(queue).write_slot() == (old(queue).write_slot() + 1) % old(
            queue,
        ).slot_count() as int,
{
    law_one_slot_stays_free(*old(queue));
    law_slots_lie_in_the_ring(*old(queue));
    lemma_following_goes_round(*old(queue), old(queue).write_slot());
    if old(queue)@.len() > 0 {
        assert(old(queue)@.push(value).skip(1) =~= old(queue)@.skip(1).push(value));
    }
}

/// A read takes the oldest value and leaves the others; from an empty ring it takes nothing.
pub proof fn law_a_read_takes_the_oldest_only<T: Copy>(
    queue: &mut RWRoundQueue<T>,
    value: Option<T>,
)
    requires
        call_ensures(RWRoundQueue::<T>::try_read, (queue,), value),
        old(queue).wf(),
    ensures
        final(queue).slot_count() == old(queue).slot_count(),
        final(queue).write_slot() == old(queue).write_slot(),
        value is None <==> old(queue)@.len() == 0,
        value is None ==> final(queue)@ == old(queue)@ && final(queue).read_slot() == old(
            queue,
        ).read_slot(),
        value matches Some(v) ==> seq![v] + final(queue)@ == old(queue)@ && final(
            queue).read_slot() == (old(queue).read_slot() + 1) % old(queue).slot_count() as int,
{
    law_slots_lie_in_the_ring(*old(queue));
    lemma_following_goes_round(*old(queue), old(queue).read_slot());
    if value is Some {
        assert(seq![value->Some_0] + final(queue)@ =~= old(queue)@);
    }
}

/// A batch takes the oldest values in their order, as many as there are but not more than asked
/// for, and leaves the others.
pub proof fn law_a_batch_takes_the_oldest_only<T: Copy>(
    reader: &QueueReader<T>,
    queue: &mut RWRoundQueue<T>,
    max: usize,
    batch: Vec<T>,
)
    requires
        call_ensures(QueueReader::<T>::read_batch, (reader, queue, max), batch),
        old(queue).wf(),
    ensures
        batch@ + final(queue)@ == old(queue)@,
        batch@.len() <= max,
        batch@.len() < max ==> final(queue)@.len() == 0,
        final(queue).slot_count() == old(queue).slot_count(),
        final(queue).write_slot() == old(queue).write_slot(),
{
    assert(batch@ + final(queue)@ =~= old(queue)@);
}

/// The two ends of a ring read and write as the ring itself does.
pub proof fn law_the_ends_of_a_ring_do_what_it_does<T: Copy>(
    reader: &QueueReader<T>,
    writer: &mut QueueWriter<T>,
    read_one: &mut RWRoundQueue<T>,
    read_two: &mut RWRoundQueue<T>,
    write_one: &mut RWRoundQueue<T>,
    write_two: &mut RWRoundQueue<T>,
    value: T,
    first: Option<T>,
    second: Option<T>,
    overwrote: bool,
    likewise: bool,
)
    requires
        call_ensures(RWRoundQueue::<T>::try_read, (read_one,), first),
        call_ensures(QueueReader::<T>::read, (reader, read_two), second),
        call_ensures(RWRoundQueue::<T>::write_overwrite, (write_one, value), overwrote),
        call_ensures(QueueWriter::<T>::write, (writer, write_two, value), likewise),
        old(read_one)@ == old(read_two)@,
        old(write_one)@ == old(write_two)@,
        old(write_one).slot_count() == old(write_two).slot_count(),
        old(read_one).wf() && old(read_two).wf() && old(write_one).wf() && old(write_two).wf(),
    ensures
        first == second,
        final(read_one)@ == final(read_two)@,
        overwrote == likewise,
        final(write_one)@ == final(write_two)@,
        *final(writer) == *old(writer),
{
}

/// A value that is handed over joins what waits. Where it was told that there was no room, the
/// oldest value is given up for it, and where nothing waits any more, it is lost. Where it was
/// told that there was room while there is none, the ring is wiped.
pub proof fn law_handing_over_trusts_what_was_told<T: Copy>(
    queue: &mut RWRoundQueue<T>,
    was_full: bool,
)
    requires
        call_ensures(RWRoundQueue::<T>::commit_write, (queue, was_full), ()),
        old(queue).wf(),
        old(queue).staged() is Some,
    ensures
        ({
            let value = old(queue).staged()->Some_0;
            let room = old(queue)@.len() + 1 < old(queue).slot_count();
            &&& !was_full && room ==> final(queue)@ == old(queue)@ + seq![value]
            &&& !was_full && !room ==> final(queue)@.len() == 0
            &&& was_full && old(queue)@.len() > 0 ==> final(queue)@.len() == old(queue)@.len()
                && seq![old(queue)@[0]] + final(queue)@ == old(queue)@ + seq![value]
            &&& was_full && old(queue)@.len() == 0 ==> final(queue)@.len() == 0
            &&& final(queue).slot_count() == old(queue).slot_count()
            &&& final(queue).write_slot() == (old(queue).write_slot() + 1) % old(
                queue,
            ).slot_count() as int
        }),
{
    let value = old(queue).staged()->Some_0;
    law_one_slot_stays_free(*old(queue));
    law_slots_lie_in_the_ring(*old(queue));
    lemma_following_goes_round(*old(queue), old(queue).write_slot());
    if !was_full && old(queue)@.len() + 1 < old(queue).slot_count() {
        assert(final(queue)@ =~= old(queue)@ + seq![value]);
    }
    if was_full && old(queue)@.len() > 0 {
        assert(seq![old(queue)@[0]] + final(queue)@ =~= old(queue)@ + seq![value]);
    }
}

/// The writing end hands over as the ring itself does, and tells the same slot.
pub proof fn law_the_writing_end_hands_over_alike<T: Copy>(
    writer: &mut QueueWriter<T>,
    again: &mut QueueWriter<T>,
    ring: &RWRoundQueue<T>,
    one: &mut RWRoundQueue<T>,
    two: &mut RWRoundQueue<T>,
    was_full: bool,
    slot: Option<(usize, bool)>,
    likewise: Option<(usize, bool)>,
)
    requires
        call_ensures(RWRoundQueue::<T>::commit_write, (one, was_full), ()),
        call_ensures(QueueWriter::<T>::commit, (writer, two, was_full), ()),
        call_ensures(RWRoundQueue::<T>::acquire_write_ptr, (ring,), slot),
        call_ensures(QueueWriter::<T>::acquire_ptr, (again, ring), likewise),
        *old(one) == *old(two),
        old(one).wf(),
        old(one).staged() is Some,
        ring.wf(),
    ensures
        final(one)@ == final(two)@,
        final(one).write_slot() == final(two).write_slot(),
        final(one).read_slot() == final(two).read_slot(),
        slot == likewise,
        slot == Some((ring.write_slot(), ring@.len() + 1 == ring.slot_count())),
        *final(writer) == *old(writer),
        *final(again) == *old(again),
{
}

/// A value that is put into the slot for the next write waits there, unseen, until it is handed
/// over.
pub proof fn law_a_value_waits_unseen_for_its_handing_over<T: Copy>(
    queue: &mut RWRoundQueue<T>,
    slot: usize,
    value: T,
)
    requires
        call_ensures(RWRoundQueue::<T>::put_at, (queue, slot, value), ()),
        old(queue).wf(),
        slot == old(queue).write_slot(),
    ensures
        final(queue)@ == old(queue)@,
        final(queue).staged() == Some(value),
        final(queue).read_slot() == old(queue).read_slot(),
        final(queue).write_slot() == old(queue).write_slot(),
        final(queue).slot_count() == old(queue).slot_count(),
{
}

/// A ring can be had of any number of slots that is a power of two, where the memory is granted,
/// and of no other; it begins empty.
pub proof fn law_rings_have_a_power_of_two_of_slots<T: Copy>(
    capacity: usize,
    r: Result<RWRoundQueue<T>, QueueError>,
)
    requires
        call_ensures(RWRoundQueue::<T>::new, (capacity,), r),
    ensures
        r is Err && r->Err_0 is ZeroCapacity <==> capacity == 0,
        r is Err && r->Err_0 is NotPowerOfTwo <==> capacity > 0
            && !vstd::arithmetic::power2::is_pow2(capacity as int),
        r matches Ok(q) ==> q.wf() && q@.len() == 0 && q.slot_count() == capacity,
{
}

/// What a ring tells of itself: how much waits, whether anything does, and how many slots there
/// are, from the first to one past the last.
pub proof fn law_a_ring_tells_what_it_holds<T: Copy>(
    queue: &RWRoundQueue<T>,
    n: usize,
    none: bool,
    slots: usize,
    first: usize,
    past: usize,
    next: Option<usize>,
    value: T,
)
    requires
        queue.wf(),
        call_ensures(RWRoundQueue::<T>::len, (queue,), n),
        call_ensures(RWRoundQueue::<T>::is_empty, (queue,), none),
        call_ensures(RWRoundQueue::<T>::capacity, (queue,), slots),
        call_ensures(RWRoundQueue::<T>::start_ptr, (queue,), first),
        call_ensures(RWRoundQueue::<T>::end_ptr, (queue,), past),
        call_ensures(RWRoundQueue::<T>::acquire_read_ptr, (queue,), next),
        next is Some ==> call_ensures(RWRoundQueue::<T>::value_at, (queue, next->Some_0), value),
    ensures
        n == queue@.len(),
        none <==> n == 0,
        next is None <==> none,
        next matches Some(slot) ==> slot == queue.read_slot() && first <= slot < past && value
            == queue@[0],
        past - first == slots,
        n < slots,
        slots == queue.slot_count(),
{
}

/// Splitting a ring leaves it as it is, and the writing end knows its number of slots.
pub proof fn law_splitting_leaves_the_ring<T: Copy>(
    queue: &mut RWRoundQueue<T>,
    ends: (QueueReader<T>, QueueWriter<T>),
    slots: usize,
)
    requires
        call_ensures(RWRoundQueue::<T>::split, (queue,), ends),
        call_ensures(QueueWriter::<T>::capacity, (&ends.1,), slots),
    ensures
        *final(queue) == *old(queue),
        slots == old(queue).slot_count(),
{
}

/// The memory for a ring decides alone whether a ring of a proper number of slots is had.
pub proof fn law_memory_decides_alone<T: Copy>(
    capacity: usize,
    slots: Vec<Option<T>>,
    granted: bool,
    r: Result<RWRoundQueue<T>, QueueError>,
)
    requires
        call_ensures(RWRoundQueue::<T>::with_reservation, (capacity, slots, granted), r),
    ensures
        r is Ok <==> granted,
        r is Err ==> r->Err_0 is AllocationFailed,
        r matches Ok(q) ==> q.wf() && q@.len() == 0 && q.slot_count() == capacity,
{
}

} // verus!
