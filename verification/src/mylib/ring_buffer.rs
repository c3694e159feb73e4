//! Provides a fixed-capacity ring buffer.

use vstd::prelude::*;

verus! {

/// Fixed-size ring buffer type.
///
/// The buffer holds its items in a fixed number of slots. The items lie in
/// the slots from `start` on, going round at the end.
pub struct RingBuf<T> {
    data: Vec<Option<T>>,
    start: usize,
    len: usize,
}

impl<T> RingBuf<T> {
    /// The number of slots.
    pub closed spec fn capacity(&self) -> nat {
        self.data@.len()
    }

    /// The slot in which the item at position `idx` lies, of `count` slots
    /// of which the one at `start` holds the oldest item.
    pub open spec fn slot_of(start: int, idx: int, count: int) -> int {
        (start + idx) % count
    }

    /// The slot in which the item at position `idx` lies.
    pub closed spec fn slot(&self, idx: int) -> int {
        Self::slot_of(self.start as int, idx, self.data@.len() as int)
    }

    /// The slots that hold the `len` items from `start` on are filled.
    pub open spec fn filled(data: Seq<Option<T>>, start: int, len: int) -> bool {
        forall|i: int|
            0 <= i < len ==> (#[trigger] data[Self::slot_of(start, i, data.len() as int)]).is_some()
    }

    /// The items of the buffer, the oldest first.
    pub closed spec fn view(&self) -> Seq<T> {
        Seq::new(self.len as nat, |i: int| self.data@[self.slot(i)]->0)
    }

    /// The slots that hold the items are filled.
    pub closed spec fn wf(&self) -> bool {
        &&& self.len <= self.data@.len()
        &&& self.data@.len() > 0 ==> self.start < self.data@.len()
        &&& self.data@.len() == 0 ==> self.start == 0
        &&& Self::filled(self.data@, self.start as int, self.len as int)
    }

    /// Create a new (empty) ring buffer.
    pub fn new(capacity: usize) -> (buffer: RingBuf<T>)
        ensures
            buffer.wf(),
            buffer.capacity() == capacity,
            buffer@ == Seq::<T>::empty(),
    {
        let mut data: Vec<Option<T>> = Vec::new();
        let mut i: usize = 0;
        while i < capacity
            invariant
                i <= capacity,
                data@.len() == i,
            decreases capacity - i,
        {
            data.push(None);
            i += 1;
        }
        let buffer = RingBuf { data, start: 0, len: 0 };
        assert(buffer@ =~= Seq::<T>::empty());
        buffer
    }

    /// The index of the slot for the position `idx`; the position behind
    /// the last item is the one at which an item is put in.
    fn int_get_idx(&self, idx: usize) -> (slot: usize)
        requires
            self.wf(),
            idx <= self.len,
            self.data@.len() > 0,
        ensures
            slot == self.slot(idx as int),
            slot < self.data@.len(),
    {
        let capacity = self.data.len();
        // `start < capacity` and `idx <= capacity`: the sum wraps at most
        // once.
        if idx >= capacity - self.start {
            assert((self.start + idx) % (capacity as int) == self.start + idx - capacity) by {
                vstd::arithmetic::div_mod::lemma_fundamental_div_mod_converse(
                    self.start + idx,
                    capacity as int,
                    1,
                    self.start + idx - capacity,
                );
            }
            idx - (capacity - self.start)
        } else {
            assert((self.start + idx) % (capacity as int) == self.start + idx) by {
                vstd::arithmetic::div_mod::lemma_small_mod((self.start + idx) as nat, capacity as nat);
            }
            self.start + idx
        }
    }

    /// Whether the buffer holds no item.
    pub fn is_empty(&self) -> (empty: bool)
        ensures
            empty == (self@.len() == 0),
    {
        self.len == 0
    }

    /// The number of items in the buffer.
    pub fn len(&self) -> (len: usize)
        ensures
            len == self@.len(),
    {
        self.len
    }

    /// Push an item to the end of the buffer. Where the buffer is full the
    /// item is handed back and the buffer stays as it is.
    pub fn push_back(&mut self, val: T) -> (result: Result<(), T>)
        requires
            old(self).wf(),
        ensures
            final(self).wf(),
            final(self).capacity() == old(self).capacity(),
            old(self)@.len() < old(self).capacity() ==> result is Ok && final(self)@ == old(self)@.push(
                val,
            ),
            old(self)@.len() >= old(self).capacity() ==> result == Err::<(), T>(val) && final(self)@
                == old(self)@,
    {
        if self.len == self.data.len() {
            Err(val)
        } else {
            let idx = self.int_get_idx(self.len);
            proof {
                self.lemma_slots_differ(self.len as int);
            }
            self.data[idx] = Some(val);
            self.len += 1;
            proof {
                assert forall|i: int| 0 <= i < self.len implies (#[trigger] self.data@[self.slot(
                    i,
                )]).is_some() by {
                    if i < self.len - 1 {
                        assert(old(self).data@[old(self).slot(i)].is_some());
                    }
                }
                assert(self@ =~= old(self)@.push(val));
            }
            Ok(())
        }
    }

    /// The item that was pushed last, to be changed in place. Whatever
    /// the caller makes of it takes its place in the buffer.
    pub fn back_mut(&mut self) -> (item: Option<&mut T>)
        requires
            old(self).wf(),
        ensures
            final(self).wf(),
            final(self).capacity() == old(self).capacity(),
            old(self)@.len() == 0 ==> item.is_none() && final(self)@ == old(self)@,
            old(self)@.len() > 0 ==> item.is_some() && *item.unwrap() == old(self)@.last()
                && final(self)@ =~= old(self)@.update(
                old(self)@.len() - 1,
                *final(item.unwrap()),
            ),
    {
        if self.len == 0 {
            None
        } else {
            let idx = self.int_get_idx(self.len - 1);
            proof {
                self.lemma_slots_differ(self.len - 1);
                assert forall|o: Option<T>| o.is_some() implies #[trigger] Self::filled(
                    self.data@.update(idx as int, o),
                    self.start as int,
                    self.len as int,
                ) by {
                    let data = self.data@.update(idx as int, o);
                    assert forall|i: int| 0 <= i < self.len implies (#[trigger] data[Self::slot_of(
                        self.start as int,
                        i,
                        data.len() as int,
                    )]).is_some() by {
                        assert(self.data@[self.slot(i)].is_some());
                    }
                }
            }
            self.data[idx].as_mut()
        }
    }

    /// Pop an item from the front of the buffer.
    pub fn pop_front(&mut self) -> (item: Option<T>)
        requires
            old(self).wf(),
        ensures
            final(self).wf(),
            final(self).capacity() == old(self).capacity(),
            old(self)@.len() == 0 ==> item.is_none() && final(self)@ == old(self)@,
            old(self)@.len() > 0 ==> item == Some(old(self)@[0]) && final(self)@ == old(self)@.drop_first(),
    {
        if self.len == 0 {
            None
        } else {
            let idx = self.start;
            let next = self.int_get_idx(1);
            proof {
                self.lemma_slots_differ(0);
                assert(self.slot(0) == self.start) by {
                    vstd::arithmetic::div_mod::lemma_small_mod(
                        self.start as nat,
                        self.data@.len() as nat,
                    );
                }
                assert forall|i: int| 0 <= i < self.len implies self.slot(i) == (if i == 0 {
                    self.start as int
                } else {
                    (next + (i - 1)) % (self.data@.len() as int)
                }) by {
                    if i > 0 {
                        self.lemma_shift(i);
                    }
                }
            }
            let item = self.data[idx].take();
            self.start = next;
            self.len -= 1;
            proof {
                assert forall|i: int| 0 <= i < self.len implies (#[trigger] self.data@[Self::slot_of(
                    self.start as int,
                    i,
                    self.data@.len() as int,
                )]).is_some() by {
                    assert(self.slot(i) == old(self).slot(i + 1));
                    assert(old(self).data@[old(self).slot(i + 1)].is_some());
                    old(self).lemma_slots_differ(i + 1);
                }
                assert forall|i: int| 0 <= i < self.len implies self@[i] == old(self)@[i + 1] by {
                    assert(self.slot(i) == old(self).slot(i + 1));
                    old(self).lemma_slots_differ(i + 1);
                }
                assert(self@ =~= old(self)@.drop_first());
            }
            item
        }
    }

    /// The slot of position `i` is the slot of position `i - 1` counted
    /// from the slot of position 1.
    proof fn lemma_shift(&self, i: int)
        requires
            self.wf(),
            self.data@.len() > 0,
            1 <= i,
        ensures
            self.slot(i) == (self.slot(1) + (i - 1)) % (self.data@.len() as int),
    {
        let n = self.data@.len() as int;
        vstd::arithmetic::div_mod::lemma_add_mod_noop(self.start + 1, i - 1, n);
        vstd::arithmetic::div_mod::lemma_mod_twice(self.start + 1, n);
        vstd::arithmetic::div_mod::lemma_add_mod_noop((self.start + 1) % n, i - 1, n);
    }

    /// Positions within the capacity lie in different slots than position
    /// 0 ... `i` does, unless they are `i`.
    proof fn lemma_slots_differ(&self, i: int)
        requires
            self.wf(),
            self.data@.len() > 0,
            0 <= i <= self.data@.len(),
        ensures
            0 <= self.slot(i) < self.data@.len(),
            forall|j: int|
                0 <= j < self.data@.len() && j != i && i < self.data@.len() ==> #[trigger] self.slot(j)
                    != self.slot(i),
    {
        let n = self.data@.len() as int;
        assert forall|j: int| 0 <= j < n && j != i && i < n implies #[trigger] self.slot(j)
            != self.slot(i) by {
            if self.slot(j) == self.slot(i) {
                vstd::arithmetic::div_mod::lemma_fundamental_div_mod(self.start + j, n);
                vstd::arithmetic::div_mod::lemma_fundamental_div_mod(self.start + i, n);
                let qj = (self.start + j) / n;
                let qi = (self.start + i) / n;
                assert(j - i == n * (qj - qi)) by (nonlinear_arith)
                    requires
                        self.start + j == n * qj + (self.start + j) % n,
                        self.start + i == n * qi + (self.start + i) % n,
                        (self.start + j) % n == (self.start + i) % n,
                ;
                assert(qj - qi == 0) by (nonlinear_arith)
                    requires
                        j - i == n * (qj - qi),
                        -n < j - i < n,
                        n > 0,
                ;
            }
        }
    }
}

/// A ring buffer that keeps one slot empty, so that its two ends tell a
/// full buffer from an empty one: the items lie in the slots from `start`
/// up to, but not including, `end`, going round at the last slot.
///
/// Nothing is locked here: whoever holds the buffer for writing is
/// the only one who uses it.
pub struct AtomicRingBuf<T> {
    data: Vec<Option<T>>,
    start: usize,
    end: usize,
}

impl<T> AtomicRingBuf<T> {
    /// The number of slots: one more than the buffer can hold.
    pub closed spec fn capacity(&self) -> nat {
        self.data@.len()
    }

    /// The slot that lies `idx` slots behind the slot `start`, of `count`
    /// slots.
    pub open spec fn slot_of(start: int, idx: int, count: int) -> int {
        if start + idx < count {
            start + idx
        } else {
            start + idx - count
        }
    }

    /// The number of items between the two ends.
    pub open spec fn between(start: int, end: int, count: int) -> int {
        if start <= end {
            end - start
        } else {
            end + count - start
        }
    }

    /// The slots of the `len` items from `start` on are filled.
    pub open spec fn filled(data: Seq<Option<T>>, start: int, len: int) -> bool {
        forall|i: int|
            0 <= i < len ==> (#[trigger] data[Self::slot_of(start, i, data.len() as int)]).is_some()
    }

    /// The items of the buffer, the oldest first.
    pub closed spec fn view(&self) -> Seq<T> {
        Seq::new(
            Self::between(self.start as int, self.end as int, self.data@.len() as int) as nat,
            |i: int| self.data@[Self::slot_of(self.start as int, i, self.data@.len() as int)]->0,
        )
    }

    /// Both ends lie within the slots, and the slots between them are
    /// filled.
    pub closed spec fn wf(&self) -> bool {
        &&& self.data@.len() > 0 ==> self.start < self.data@.len() && self.end < self.data@.len()
        &&& self.data@.len() == 0 ==> self.start == 0 && self.end == 0
        &&& Self::filled(
            self.data@,
            self.start as int,
            Self::between(self.start as int, self.end as int, self.data@.len() as int),
        )
    }

    /// Create a new (empty) ring buffer.
    pub fn new(capacity: usize) -> (buffer: AtomicRingBuf<T>)
        ensures
            buffer.wf(),
            buffer.capacity() == capacity,
            buffer@ == Seq::<T>::empty(),
    {
        let mut data: Vec<Option<T>> = Vec::new();
        let mut i: usize = 0;
        while i < capacity
            invariant
                i <= capacity,
                data@.len() == i,
            decreases capacity - i,
        {
            data.push(None);
            i += 1;
        }
        let buffer = AtomicRingBuf { data, start: 0, end: 0 };
        assert(buffer@ =~= Seq::<T>::empty());
        buffer
    }

    /// Pop an item from the ring buffer.
    pub fn pop(&mut self) -> (item: Option<T>)
        requires
            old(self).wf(),
            old(self).capacity() > 0,
        ensures
            final(self).wf(),
            final(self).capacity() == old(self).capacity(),
            old(self)@.len() == 0 ==> item.is_none() && final(self)@ == old(self)@,
            old(self)@.len() > 0 ==> item == Some(old(self)@[0]) && final(self)@ == old(self)@.drop_first(),
    {
        let idx = self.start;
        let next_idx = if idx == self.data.len() - 1 {
            0
        } else {
            idx + 1
        };
        if idx == self.end {
            None
        } else {
            let item = self.data[idx].take();
            self.start = next_idx;
            proof {
                let count = self.data@.len() as int;
                let len = Self::between(self.start as int, self.end as int, count);
                assert(old(self).data@[Self::slot_of(idx as int, 0, count)].is_some());
                assert forall|i: int| 0 <= i < len implies Self::slot_of(self.start as int, i, count)
                    == Self::slot_of(idx as int, i + 1, count) && Self::slot_of(
                    self.start as int,
                    i,
                    count,
                ) != idx by {}
                assert forall|i: int| 0 <= i < len implies (#[trigger] self.data@[Self::slot_of(
                    self.start as int,
                    i,
                    count,
                )]).is_some() by {
                    assert(old(self).data@[Self::slot_of(idx as int, i + 1, count)].is_some());
                }
                assert(self@ =~= old(self)@.drop_first());
            }
            item
        }
    }

    /// Push onto the end, returning `Err(val)` if full.
    pub fn push(&mut self, val: T) -> (result: Result<(), T>)
        requires
            old(self).wf(),
            old(self).capacity() > 0,
        ensures
            final(self).wf(),
            final(self).capacity() == old(self).capacity(),
            old(self)@.len() + 1 < old(self).capacity() ==> result is Ok && final(self)@ == old(self)@.push(
                val,
            ),
            old(self)@.len() + 1 >= old(self).capacity() ==> result == Err::<(), T>(val) && final(self)@ == old(self)@,
    {
        let pos = self.end;
        let next_pos = if pos == self.data.len() - 1 {
            0
        } else {
            pos + 1
        };
        if next_pos == self.start {
            Err(val)
        } else {
            self.data[pos] = Some(val);
            self.end = next_pos;
            proof {
                let count = self.data@.len() as int;
                let len = Self::between(self.start as int, self.end as int, count);
                assert(Self::slot_of(self.start as int, len - 1, count) == pos);
                assert forall|i: int| 0 <= i < len implies (#[trigger] self.data@[Self::slot_of(
                    self.start as int,
                    i,
                    count,
                )]).is_some() by {
                    if i < len - 1 {
                        assert(old(self).data@[Self::slot_of(self.start as int, i, count)].is_some());
                    }
                }
                assert(self@ =~= old(self)@.push(val));
            }
            Ok(())
        }
    }
}

} // verus!
