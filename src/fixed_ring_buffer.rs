use vstd::prelude::*;
use vstd::std_specs::cmp::PartialEqSpec;
use vstd::std_specs::iter::IteratorSpec;

use crate::cells::Cells;
use crate::iter::{RingBufferDrainingIterator, RingBufferIntoIterator};
use crate::ring_buffer::{pushed, pushed_all, RingBuffer};

verus! {

/// A queue of at most `CAP` elements held in `CAP` cells allocated once.
/// Pushing into a full buffer evicts the oldest element.
pub struct FixedRingBuffer<T, const CAP: usize> {
    cells: Cells<T>,
}

impl<T, const CAP: usize> View for FixedRingBuffer<T, CAP> {
    type V = Seq<T>;

    /// The live elements, oldest first.
    closed spec fn view(&self) -> Seq<T> {
        self.cells.contents()
    }
}

impl<T, const CAP: usize> FixedRingBuffer<T, CAP> {
    #[verifier::type_invariant]
    closed spec fn well_formed(&self) -> bool {
        &&& self.cells.inv()
        &&& self.cells.cap() == CAP
    }

    /// An empty buffer of capacity `CAP`; a capacity of zero is rejected.
    pub fn new() -> (r: Self)
        requires
            CAP > 0,
        ensures
            r@ == Seq::<T>::empty(),
    {
        FixedRingBuffer { cells: Cells::new(CAP) }
    }

    /// The number of elements; never more than the capacity, which is never
    /// zero.
    pub fn len(&self) -> (r: usize)
        ensures
            r == self@.len(),
            r <= CAP,
            CAP > 0,
    {
        proof {
            use_type_invariant(self);
            self.cells.lemma_bounds();
        }
        self.cells.len()
    }

    /// The capacity `CAP`, which is never zero.
    pub fn capacity(&self) -> (r: usize)
        ensures
            r == CAP,
            r > 0,
    {
        proof {
            use_type_invariant(self);
            self.cells.lemma_bounds();
        }
        CAP
    }

    /// Whether the buffer holds `CAP` elements, so that a push evicts one.
    pub fn is_full(&self) -> (r: bool)
        ensures
            r == (self@.len() == CAP),
    {
        self.len() == CAP
    }

    /// Whether the buffer holds no element.
    pub fn is_empty(&self) -> (r: bool)
        ensures
            r == (self@.len() == 0),
    {
        self.len() == 0
    }

    /// Appends `value` as the newest element, evicting the oldest one when full.
    pub fn push(&mut self, value: T)
        ensures
            final(self)@ == pushed(old(self)@, value, CAP as nat),
    {
        self.push_back(value);
    }

    /// Removes and returns the oldest element; `None` when empty.
    pub fn pop(&mut self) -> (r: Option<T>)
        ensures
            old(self)@.len() == 0 ==> r is None && final(self)@ == old(self)@,
            old(self)@.len() > 0 ==> r == Some(old(self)@[0]) && final(self)@ == old(self)@.drop_first(),
    {
        self.pop_front()
    }

    /// The element at logical position `index`, which must exist.
    pub fn index(&self, index: usize) -> (r: &T)
        requires
            index < self@.len(),
        ensures
            *r == self@[index as int],
    {
        self.get(index).unwrap()
    }

    /// Exclusive access to the element at logical position `index`, which
    /// must exist.
    pub fn index_mut(&mut self, index: usize) -> (r: &mut T)
        requires
            index < old(self)@.len(),
        ensures
            *r == old(self)@[index as int],
            final(self)@ == old(self)@.update(index as int, *final(r)),
    {
        self.get_mut(index).unwrap()
    }

    /// Pushes each of `values` in order.
    pub fn extend(&mut self, values: Vec<T>)
        ensures
            final(self)@ == pushed_all(old(self)@, values@, CAP as nat),
    {
        // Move the values out from the back, then push them oldest first.
        let n = values.len();
        let mut rest = values;
        let mut reversed: Vec<T> = Vec::new();
        while rest.len() > 0
            invariant
                rest@ == values@.subrange(0, n - reversed@.len()),
                reversed@.len() <= n == values@.len(),
                forall|j: int| 0 <= j < reversed@.len() ==> #[trigger] reversed@[j] == values@[n - 1 - j],
            decreases rest@.len(),
        {
            let x = rest.pop().unwrap();
            reversed.push(x);
        }
        while reversed.len() > 0
            invariant
                reversed@.len() <= n == values@.len(),
                forall|j: int| 0 <= j < reversed@.len() ==> #[trigger] reversed@[j] == values@[n - 1 - j],
                self@ == pushed_all(old(self)@, values@.subrange(0, n - reversed@.len()), CAP as nat),
            decreases reversed@.len(),
        {
            let ghost done = n - reversed@.len();
            let x = reversed.pop().unwrap();
            assert(values@.subrange(0, done + 1).drop_last() =~= values@.subrange(0, done));
            self.push_back(x);
        }
        assert(values@.subrange(0, n as int) =~= values@);
    }

    /// A buffer holding the newest `CAP` of `values`, in order.
    pub fn from_vec(values: Vec<T>) -> (r: Self)
        requires
            CAP > 0,
        ensures
            r@ == pushed_all(Seq::<T>::empty(), values@, CAP as nat),
    {
        let mut r = Self::new();
        r.extend(values);
        r
    }

    /// A buffer holding clones of the newest `CAP` of `values`, in order.
    pub fn from_slice(values: &[T]) -> (r: Self) where T: Clone
        requires
            CAP > 0,
        ensures
            r@.len() == if values@.len() <= CAP { values@.len() } else { CAP as nat },
            forall|i: int|
                0 <= i < r@.len() ==> cloned(values@[values@.len() - r@.len() + i], #[trigger] r@[i]),
    {
        let mut r = Self::new();
        let n = values.len();
        let mut k: usize = 0;
        while k < n
            invariant
                CAP > 0,
                n == values@.len(),
                k <= n,
                r@.len() == if k <= CAP { k as nat } else { CAP as nat },
                forall|i: int| 0 <= i < r@.len() ==> cloned(values@[k - r@.len() + i], #[trigger] r@[i]),
            decreases n - k,
        {
            let ghost before = r@;
            let x = values[k].clone();
            r.push(x);
            k = k + 1;
            assert forall|i: int| 0 <= i < r@.len() implies cloned(
                values@[k - r@.len() + i],
                #[trigger] r@[i],
            ) by {
                if i + 1 < r@.len() {
                    if before.len() >= CAP {
                        assert(r@[i] == before[i + 1]);
                    } else {
                        assert(r@[i] == before[i]);
                    }
                }
            }
        }
        r
    }

    /// An iterator that takes the elements out, leaving the buffer empty,
    /// and yields them oldest first; those it has not yielded when dropped
    /// are dropped with it.
    pub fn drain(&mut self) -> (r: RingBufferDrainingIterator<'_, T, CAP>)
        ensures
            r@ == old(self)@,
            final(self)@ == Seq::<T>::empty(),
    {
        RingBufferDrainingIterator::new(self)
    }

    /// An iterator that takes the buffer and yields its elements, oldest first.
    pub fn into_iter(self) -> (r: RingBufferIntoIterator<T, Self>)
        ensures
            r@ == self@,
    {
        RingBufferIntoIterator::new(self)
    }
}

impl<const CAP: usize> FixedRingBuffer<char, CAP> {
    /// A buffer holding the newest `CAP` characters of `text`, in order.
    pub fn from_str(text: &str) -> (r: Self)
        requires
            CAP > 0,
        ensures
            r@ == pushed_all(Seq::<char>::empty(), text@, CAP as nat),
    {
        let mut r = Self::new();
        let mut chars = text.chars();
        let ghost mut taken: Seq<char> = Seq::empty();
        let mut more = true;
        while more
            invariant
                taken + chars.remaining() == text@,
                r@ == pushed_all(Seq::<char>::empty(), taken, CAP as nat),
                taken.len() <= text@.len(),
                !more ==> taken == text@,
            decreases text@.len() - taken.len() + if more { 1int } else { 0int },
        {
            match chars.next() {
                Some(c) => {
                    proof {
                        assert((taken.push(c)).drop_last() =~= taken);
                        taken = taken.push(c);
                    }
                    r.push_back(c);
                },
                None => {
                    more = false;
                },
            }
        }
        r
    }
}

impl<T, const CAP: usize> RingBuffer<T> for FixedRingBuffer<T, CAP> {
    open spec fn spec_capacity(&self) -> nat {
        CAP as nat
    }

    closed spec fn spec_start(&self) -> nat {
        self.cells.start()
    }

    fn len(&self) -> (r: usize) {
        assert(self.spec_capacity() == CAP);
        FixedRingBuffer::len(self)
    }

    fn capacity(&self) -> (r: usize) {
        FixedRingBuffer::capacity(self)
    }

    fn get(&self, index: usize) -> (r: Option<&T>) {
        proof {
            use_type_invariant(self);
        }
        self.cells.get(index)
    }

    fn get_mut(&mut self, index: usize) -> (r: Option<&mut T>) {
        proof {
            use_type_invariant(&*self);
        }
        self.cells.get_mut(index)
    }

    fn as_slices(&self) -> (r: (Vec<&T>, Vec<&T>)) {
        proof {
            use_type_invariant(self);
            self.cells.lemma_bounds();
            assert(self.spec_capacity() == CAP);
            assert(self.spec_start() == self.cells.start());
        }
        self.cells.as_slices()
    }

    fn push_back(&mut self, value: T) {
        proof {
            use_type_invariant(&*self);
            self.cells.lemma_bounds();
        }
        self.cells.push(value);
        proof {
            use_type_invariant(&*self);
            self.cells.lemma_bounds();
        }
    }

    fn pop_front(&mut self) -> (r: Option<T>) {
        proof {
            use_type_invariant(&*self);
        }
        self.cells.pop()
    }

    fn clear(&mut self) {
        proof {
            use_type_invariant(&*self);
        }
        self.cells.clear();
    }

    fn fill_with<F: FnMut() -> T>(&mut self, f: F) {
        let mut generator = f;
        self.clear();
        let mut k: usize = 0;
        while k < CAP
            invariant
                self@.len() == k,
                k <= CAP,
                generator == f,
                f.requires(()),
                forall|i: int| 0 <= i < k ==> f.ensures((), #[trigger] self@[i]),
            decreases CAP - k,
        {
            let ghost before = self@;
            let v = generator();
            self.push_back(v);
            assert(self@ == before.push(v));
            k = k + 1;
        }
    }
}


/// Whether `a` and `b` have the same length and pairwise equal elements,
/// by the element type's own equality.
pub open spec fn elementwise_eq<T: PartialEq>(a: Seq<T>, b: Seq<T>) -> bool {
    &&& a.len() == b.len()
    &&& forall|i: int| 0 <= i < a.len() ==> (#[trigger] a[i]).eq_spec(&b[i])
}

impl<T: PartialEq, const CAP: usize> PartialEq for FixedRingBuffer<T, CAP> {
    /// Same length and pairwise equal elements, oldest first; where the
    /// elements sit in the cells plays no part.
    fn eq(&self, other: &Self) -> (r: bool) {
        let n = self.len();
        if n != other.len() {
            return false;
        }
        let mut i: usize = 0;
        while i < n
            invariant
                n == self@.len() == other@.len(),
                i <= n,
                T::obeys_eq_spec() ==> forall|j: int| 0 <= j < i ==> (#[trigger] self@[j]).eq_spec(&other@[j]),
            decreases n - i,
        {
            let a = self.get(i).unwrap();
            let b = other.get(i).unwrap();
            if !a.eq(b) {
                return false;
            }
            i = i + 1;
        }
        true
    }
}

impl<T: PartialEq, const CAP: usize> vstd::std_specs::cmp::PartialEqSpecImpl for FixedRingBuffer<T, CAP> {
    open spec fn obeys_eq_spec() -> bool {
        T::obeys_eq_spec()
    }

    open spec fn eq_spec(&self, other: &Self) -> bool {
        elementwise_eq(self@, other@)
    }
}

impl<T: Eq, const CAP: usize> Eq for FixedRingBuffer<T, CAP> {
}

impl<T: Clone, const CAP: usize> Clone for FixedRingBuffer<T, CAP> {
    /// A buffer of the same capacity holding a clone of each element, in order.
    fn clone(&self) -> (r: Self)
        ensures
            r@.len() == self@.len(),
            forall|i: int| 0 <= i < self@.len() ==> cloned(self@[i], #[trigger] r@[i]),
    {
        let n = self.len();
        proof {
            use_type_invariant(self);
            self.cells.lemma_bounds();
        }
        let mut r = Self::new();
        let mut i: usize = 0;
        while i < n
            invariant
                n == self@.len() <= CAP,
                i <= n,
                r@.len() == i,
                forall|j: int| 0 <= j < i ==> cloned(self@[j], #[trigger] r@[j]),
            decreases n - i,
        {
            let x = self.get(i).unwrap().clone();
            r.push_back(x);
            i = i + 1;
        }
        r
    }
}

/// Equality of buffers over an element type whose `==` is plain equality:
/// it holds exactly when the contents agree, so it is reflexive and
/// symmetric, and two buffers that reached the same contents through
/// different pushes and pops (so with their elements in different cells)
/// compare equal.
pub proof fn lemma_eq_is_content_eq<T: PartialEq, const CAP: usize>(
    a: FixedRingBuffer<T, CAP>,
    b: FixedRingBuffer<T, CAP>,
)
    requires
        vstd::laws_eq::obeys_concrete_eq::<T>(),
    ensures
        a.eq_spec(&b) <==> a@ == b@,
        a.eq_spec(&a),
        a.eq_spec(&b) == b.eq_spec(&a),
{
    reveal(vstd::laws_eq::obeys_concrete_eq);
    if a.eq_spec(&b) {
        assert(a@ =~= b@);
    }
}

} // verus!
