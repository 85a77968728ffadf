use vstd::prelude::*;

use core::marker::PhantomData;

use crate::fixed_ring_buffer::FixedRingBuffer;
use crate::ring_buffer::RingBuffer;

verus! {

/// The values behind a sequence of references.
pub open spec fn deref_all<T>(refs: Seq<&T>) -> Seq<T> {
    refs.map_values(|r: &T| *r)
}

/// A borrowing iterator over the elements of a ring buffer, walked from
/// either end. It holds the buffer's live elements as two runs, `start`
/// followed by `end`; `front..back` is the part not yet yielded.
pub struct Iter<'rb, T> {
    start: Vec<&'rb T>,
    end: Vec<&'rb T>,
    front: usize,
    back: usize,
}

impl<'rb, T> Iter<'rb, T> {
    #[verifier::type_invariant]
    closed spec fn inv(&self) -> bool {
        self.front <= self.back <= self.start@.len() + self.end@.len()
    }

    /// Position `k` of the two runs joined.
    closed spec fn at(&self, k: int) -> T {
        if k < self.start@.len() {
            *self.start@[k]
        } else {
            *self.end@[k - self.start@.len()]
        }
    }

    /// An iterator over the elements of `start`, then those of `end`.
    pub fn new(start: Vec<&'rb T>, end: Vec<&'rb T>) -> (r: Self)
        requires
            start@.len() + end@.len() <= usize::MAX,
        ensures
            r@ == deref_all(start@) + deref_all(end@),
    {
        let back = start.len() + end.len();
        let r = Iter { start, end, front: 0, back };
        proof {
            assert(r@ =~= deref_all(r.start@) + deref_all(r.end@));
        }
        r
    }

    fn item(&self, k: usize) -> (r: &'rb T)
        requires
            k < self.start@.len() + self.end@.len(),
        ensures
            *r == self.at(k as int),
    {
        if k < self.start.len() {
            self.start[k]
        } else {
            self.end[k - self.start.len()]
        }
    }

    /// The number of elements not yet yielded.
    pub fn len(&self) -> (r: usize)
        ensures
            r == self@.len(),
    {
        proof {
            use_type_invariant(self);
        }
        self.back - self.front
    }

    /// Yields the oldest element not yet yielded.
    pub fn next(&mut self) -> (r: Option<&'rb T>)
        ensures
            old(self)@.len() == 0 ==> r is None && final(self)@ == old(self)@,
            old(self)@.len() > 0 ==> r == Some(&old(self)@[0]) && final(self)@ == old(self)@.drop_first(),
    {
        proof {
            use_type_invariant(&*self);
        }
        if self.front < self.back {
            let r = self.item(self.front);
            self.front = self.front + 1;
            proof {
                assert(self@ =~= old(self)@.drop_first());
            }
            Some(r)
        } else {
            None
        }
    }

    /// Yields the newest element not yet yielded.
    pub fn next_back(&mut self) -> (r: Option<&'rb T>)
        ensures
            old(self)@.len() == 0 ==> r is None && final(self)@ == old(self)@,
            old(self)@.len() > 0 ==> r == Some(&old(self)@.last()) && final(self)@ == old(self)@.drop_last(),
    {
        proof {
            use_type_invariant(&*self);
        }
        if self.front < self.back {
            let r = self.item(self.back - 1);
            self.back = self.back - 1;
            proof {
                assert(self@ =~= old(self)@.drop_last());
            }
            Some(r)
        } else {
            None
        }
    }
}

impl<'rb, T> View for Iter<'rb, T> {
    type V = Seq<T>;

    /// The elements not yet yielded, oldest first.
    closed spec fn view(&self) -> Seq<T> {
        Seq::new((self.back - self.front) as nat, |i: int| self.at(self.front + i))
    }
}

/// An iterator that removes the elements of the buffer it borrows and
/// yields them, oldest first. The elements move into the iterator when it
/// is made, so the buffer is empty from then on, and whatever the iterator
/// has not yielded when it is dropped is dropped with it.
pub struct RingBufferDrainingIterator<'rb, T, const CAP: usize> {
    remaining: FixedRingBuffer<T, CAP>,
    borrow: PhantomData<&'rb mut FixedRingBuffer<T, CAP>>,
}

impl<'rb, T, const CAP: usize> View for RingBufferDrainingIterator<'rb, T, CAP> {
    type V = Seq<T>;

    /// The elements not yet yielded, oldest first.
    closed spec fn view(&self) -> Seq<T> {
        self.remaining@
    }
}

impl<'rb, T, const CAP: usize> RingBufferDrainingIterator<'rb, T, CAP> {
    /// Takes every element of `ring_buffer`, leaving it empty.
    pub fn new(ring_buffer: &'rb mut FixedRingBuffer<T, CAP>) -> (r: Self)
        ensures
            r@ == old(ring_buffer)@,
            final(ring_buffer)@ == Seq::<T>::empty(),
    {
        let _ = ring_buffer.capacity();
        let mut remaining = FixedRingBuffer::new();
        core::mem::swap(ring_buffer, &mut remaining);
        RingBufferDrainingIterator { remaining, borrow: PhantomData }
    }

    /// Removes and yields the oldest element not yet yielded; `None` once
    /// none is left.
    pub fn next(&mut self) -> (r: Option<T>)
        ensures
            old(self)@.len() == 0 ==> r is None && final(self)@ == old(self)@,
            old(self)@.len() > 0 ==> r == Some(old(self)@[0]) && final(self)@ == old(self)@.drop_first(),
    {
        self.remaining.pop_front()
    }

    /// Runs the iterator to completion, returning the elements not yet
    /// yielded, oldest first.
    pub fn collect_all(self) -> (r: Vec<T>)
        ensures
            r@ == self@,
    {
        let mut drained = self;
        let mut out: Vec<T> = Vec::new();
        let mut more = true;
        while more
            invariant
                out@ + drained@ == self@,
                !more ==> drained@.len() == 0,
            decreases drained@.len() + if more { 1int } else { 0int },
        {
            match drained.next() {
                Some(x) => {
                    out.push(x);
                    assert(out@ + drained@ =~= self@);
                },
                None => {
                    more = false;
                },
            }
        }
        assert(out@ =~= out@ + drained@);
        out
    }
}

/// An iterator that owns a ring buffer and yields its elements by removing
/// them, oldest first.
pub struct RingBufferIntoIterator<T, RB: RingBuffer<T>> {
    ring_buffer: RB,
    phantom: PhantomData<T>,
}

impl<T, RB: RingBuffer<T>> View for RingBufferIntoIterator<T, RB> {
    type V = Seq<T>;

    /// The elements not yet yielded, oldest first.
    closed spec fn view(&self) -> Seq<T> {
        self.ring_buffer@
    }
}

impl<T, RB: RingBuffer<T>> RingBufferIntoIterator<T, RB> {
    pub fn new(ring_buffer: RB) -> (r: Self)
        ensures
            r@ == ring_buffer@,
    {
        RingBufferIntoIterator { ring_buffer, phantom: PhantomData }
    }

    /// Removes and yields the oldest element; `None` once none is left.
    pub fn next(&mut self) -> (r: Option<T>)
        ensures
            old(self)@.len() == 0 ==> r is None && final(self)@ == old(self)@,
            old(self)@.len() > 0 ==> r == Some(old(self)@[0]) && final(self)@ == old(self)@.drop_first(),
    {
        self.ring_buffer.pop_front()
    }
}

} // verus!
