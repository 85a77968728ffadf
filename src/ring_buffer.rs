use vstd::prelude::*;

use vstd::std_specs::cmp::PartialEqSpec;

use crate::iter::{deref_all, Iter};

verus! {

/// The contents after pushing `value` onto `items` in a ring of capacity
/// `cap`: appended at the back, with the oldest element evicted first when
/// the ring is already full.
pub open spec fn pushed<T>(items: Seq<T>, value: T, cap: nat) -> Seq<T> {
    if items.len() >= cap {
        items.drop_first().push(value)
    } else {
        items.push(value)
    }
}

/// The contents after pushing each of `values` in order onto `items` in a
/// ring of capacity `cap`.
pub open spec fn pushed_all<T>(items: Seq<T>, values: Seq<T>, cap: nat) -> Seq<T>
    decreases values.len(),
{
    if values.len() == 0 {
        items
    } else {
        pushed(pushed_all(items, values.drop_last(), cap), values.last(), cap)
    }
}

/// The last `n` elements of `s` (all of them when it holds fewer).
pub open spec fn newest<T>(s: Seq<T>, n: nat) -> Seq<T> {
    if s.len() <= n {
        s
    } else {
        s.subrange(s.len() - n, s.len() as int)
    }
}

/// Pushing values one by one onto an empty ring of capacity `cap` leaves the
/// newest `cap` of them, in push order: all of them while they fit, and
/// otherwise the `cap` most recent, the oldest survivor being the one pushed
/// `cap` pushes before the end.
pub proof fn lemma_pushes_keep_newest<T>(values: Seq<T>, cap: nat)
    requires
        cap > 0,
    ensures
        pushed_all(Seq::<T>::empty(), values, cap) == newest(values, cap),
        values.len() <= cap ==> pushed_all(Seq::<T>::empty(), values, cap) == values,
        values.len() >= cap ==> pushed_all(Seq::<T>::empty(), values, cap).len() == cap
            && pushed_all(Seq::<T>::empty(), values, cap)[0] == values[values.len() - cap],
    decreases values.len(),
{
    if values.len() > 0 {
        let prefix = values.drop_last();
        lemma_pushes_keep_newest(prefix, cap);
        let before = newest(prefix, cap);
        if prefix.len() < cap {
            assert(before.push(values.last()) =~= values);
        } else {
            assert(before.drop_first().push(values.last()) =~= newest(values, cap));
        }
    }
}

/// The contents left after `k` pops from contents `items`, each pop taking
/// the oldest element.
pub open spec fn popped_n<T>(items: Seq<T>, k: nat) -> Seq<T>
    decreases k,
{
    if k == 0 {
        items
    } else {
        popped_n(items, (k - 1) as nat).drop_first()
    }
}

/// Pushing `values` (no more than fit) onto an empty ring and then popping
/// gives them back in push order: pop number `k + 1` yields `values[k]`,
/// and after `values.len()` pops the ring is empty.
pub proof fn lemma_pop_all_round_trip<T>(values: Seq<T>, cap: nat)
    requires
        cap > 0,
        values.len() <= cap,
    ensures
        forall|k: nat|
            k < values.len() ==> #[trigger] popped_n(pushed_all(Seq::<T>::empty(), values, cap), k)[0]
                == values[k as int],
        popped_n(pushed_all(Seq::<T>::empty(), values, cap), values.len()).len() == 0,
{
    lemma_pushes_keep_newest(values, cap);
    assert forall|k: nat| k <= values.len() implies #[trigger] popped_n(values, k) == values.subrange(
        k as int,
        values.len() as int,
    ) by {
        lemma_popped_n_is_suffix(values, k);
    }
    assert forall|k: nat| k < values.len() implies #[trigger] popped_n(
        pushed_all(Seq::<T>::empty(), values, cap),
        k,
    )[0] == values[k as int] by {
        assert(popped_n(values, k) == values.subrange(k as int, values.len() as int));
    }
    assert(popped_n(values, values.len()) == values.subrange(
        values.len() as int,
        values.len() as int,
    ));
}

proof fn lemma_popped_n_is_suffix<T>(items: Seq<T>, k: nat)
    requires
        k <= items.len(),
    ensures
        popped_n(items, k) == items.subrange(k as int, items.len() as int),
    decreases k,
{
    if k > 0 {
        lemma_popped_n_is_suffix(items, (k - 1) as nat);
        assert(items.subrange(k - 1, items.len() as int).drop_first() =~= items.subrange(
            k as int,
            items.len() as int,
        ));
    } else {
        assert(items.subrange(0, items.len() as int) =~= items);
    }
}

/// The operations of a bounded FIFO queue that overwrites its oldest element
/// when full. The view is the sequence of live elements, oldest first.
pub trait RingBuffer<T>: Sized + View<V = Seq<T>> {
    /// The number of elements the buffer holds when full.
    spec fn spec_capacity(&self) -> nat;

    /// The storage cell, counted from 0, that holds the oldest element.
    spec fn spec_start(&self) -> nat;

    /// The number of elements; never more than the capacity.
    fn len(&self) -> (r: usize)
        ensures
            r == self@.len(),
            r <= self.spec_capacity(),
    ;

    /// The capacity, which is never zero.
    fn capacity(&self) -> (r: usize)
        ensures
            r == self.spec_capacity(),
            r > 0,
    ;

    fn is_empty(&self) -> (r: bool)
        ensures
            r == (self@.len() == 0),
    {
        self.len() == 0
    }

    fn is_full(&self) -> (r: bool)
        ensures
            r == (self@.len() == self.spec_capacity()),
    {
        self.len() == self.capacity()
    }

    /// The element at logical position `index` (0 is the oldest), if any.
    fn get(&self, index: usize) -> (r: Option<&T>)
        ensures
            index < self@.len() ==> r == Some(&self@[index as int]),
            index >= self@.len() ==> r is None,
    ;

    /// Exclusive access to the element at logical position `index`, if any.
    fn get_mut(&mut self, index: usize) -> (r: Option<&mut T>)
        ensures
            final(self).spec_capacity() == old(self).spec_capacity(),
            index >= old(self)@.len() ==> r is None && final(self)@ == old(self)@,
            index < old(self)@.len() ==> r is Some && *r->Some_0 == old(self)@[index as int]
                && final(self)@ == old(self)@.update(index as int, *final(r->Some_0)),
    ;

    /// The oldest element, if any.
    fn front(&self) -> (r: Option<&T>)
        ensures
            self@.len() > 0 ==> r == Some(&self@[0]),
            self@.len() == 0 ==> r is None,
    {
        self.get(0)
    }

    /// Exclusive access to the oldest element, if any.
    fn front_mut(&mut self) -> (r: Option<&mut T>)
        ensures
            final(self).spec_capacity() == old(self).spec_capacity(),
            old(self)@.len() == 0 ==> r is None && final(self)@ == old(self)@,
            old(self)@.len() > 0 ==> r is Some && *r->Some_0 == old(self)@[0] && final(self)@
                == old(self)@.update(0, *final(r->Some_0)),
    {
        self.get_mut(0)
    }

    /// The newest element, if any.
    fn back(&self) -> (r: Option<&T>)
        ensures
            self@.len() > 0 ==> r == Some(&self@.last()),
            self@.len() == 0 ==> r is None,
    {
        let n = self.len();
        if n == 0 {
            None
        } else {
            self.get(n - 1)
        }
    }

    /// Exclusive access to the newest element, if any.
    fn back_mut(&mut self) -> (r: Option<&mut T>)
        ensures
            final(self).spec_capacity() == old(self).spec_capacity(),
            old(self)@.len() == 0 ==> r is None && final(self)@ == old(self)@,
            old(self)@.len() > 0 ==> r is Some && *r->Some_0 == old(self)@.last() && final(self)@
                == old(self)@.update(old(self)@.len() - 1, *final(r->Some_0)),
    {
        let n = self.len();
        if n == 0 {
            None
        } else {
            self.get_mut(n - 1)
        }
    }

    /// Whether some element equals `elem`.
    fn contains(&self, elem: &T) -> (r: bool) where T: PartialEq
        ensures
            T::obeys_eq_spec() ==> (r <==> exists|i: int|
                0 <= i < self@.len() && (#[trigger] self@[i]).eq_spec(elem)),
    {
        let n = self.len();
        let mut i: usize = 0;
        while i < n
            invariant
                n == self@.len(),
                i <= n,
                T::obeys_eq_spec() ==> forall|j: int| 0 <= j < i ==> !(#[trigger] self@[j]).eq_spec(elem),
            decreases n - i,
        {
            let x = self.get(i).unwrap();
            if x.eq(elem) {
                return true;
            }
            i = i + 1;
        }
        false
    }

    /// The live elements as two runs of references, oldest first: the first
    /// runs from the oldest element's cell towards the last cell, and the
    /// second, from the first cell on, is non-empty exactly when the
    /// elements wrap past the last cell.
    fn as_slices(&self) -> (r: (Vec<&T>, Vec<&T>))
        ensures
            deref_all(r.0@) + deref_all(r.1@) == self@,
            self.spec_start() < self.spec_capacity(),
            r.0@.len() == if self@.len() <= self.spec_capacity() - self.spec_start() {
                self@.len()
            } else {
                (self.spec_capacity() - self.spec_start()) as nat
            },
            r.1@.len() > 0 <==> self.spec_start() + self@.len() > self.spec_capacity(),
    ;

    /// A borrowing iterator over the elements, oldest first.
    fn iter(&self) -> (r: Iter<'_, T>)
        ensures
            r@ == self@,
    {
        let n = self.len();
        let (start, end) = self.as_slices();
        assert(deref_all(start@).len() + deref_all(end@).len() == n);
        Iter::new(start, end)
    }

    /// Appends `value` as the newest element, evicting the oldest one when full.
    fn push_back(&mut self, value: T)
        ensures
            final(self).spec_capacity() == old(self).spec_capacity(),
            final(self).spec_capacity() > 0,
            final(self)@.len() <= final(self).spec_capacity(),
            final(self)@ == pushed(old(self)@, value, old(self).spec_capacity()),
    ;

    /// Removes and returns the oldest element; `None` when empty.
    fn pop_front(&mut self) -> (r: Option<T>)
        ensures
            final(self).spec_capacity() == old(self).spec_capacity(),
            old(self)@.len() == 0 ==> r is None && final(self)@ == old(self)@,
            old(self)@.len() > 0 ==> r == Some(old(self)@[0]) && final(self)@
                == old(self)@.drop_first(),
    ;

    /// Drops every element, leaving the buffer empty.
    fn clear(&mut self)
        ensures
            final(self).spec_capacity() == old(self).spec_capacity(),
            final(self)@ == Seq::<T>::empty(),
            old(self)@.len() == 0 ==> final(self)@ == old(self)@,
    ;

    /// Clears the buffer, then fills every cell with a value of `f`.
    fn fill_with<F: FnMut() -> T>(&mut self, f: F)
        requires
            f.requires(()),
        ensures
            final(self).spec_capacity() == old(self).spec_capacity(),
            final(self)@.len() == old(self).spec_capacity(),
            forall|i: int| 0 <= i < final(self)@.len() ==> f.ensures((), #[trigger] final(self)@[i]),
    ;

    /// Clears the buffer, then fills every cell with a clone of `value`.
    fn fill(&mut self, value: T) where T: Clone
        ensures
            final(self).spec_capacity() == old(self).spec_capacity(),
            final(self)@.len() == old(self).spec_capacity(),
            forall|i: int| 0 <= i < final(self)@.len() ==> cloned(value, #[trigger] final(self)@[i]),
    {
        let source = &value;
        let f = || -> (r: T)
            ensures
                cloned(*source, r),
            { source.clone() };
        self.fill_with(f);
    }

    /// Clears the buffer, then fills every cell with the element type's
    /// default value.
    fn fill_with_default(&mut self) where T: Default
        ensures
            final(self).spec_capacity() == old(self).spec_capacity(),
            final(self)@.len() == old(self).spec_capacity(),
            forall|i: int|
                0 <= i < final(self)@.len() ==> call_ensures(T::default, (), #[trigger] final(self)@[i]),
    {
        let f = || -> (r: T)
            ensures
                call_ensures(T::default, (), r),
            { T::default() };
        self.fill_with(f);
    }

    /// Removes and discards the oldest element, if any.
    fn skip(&mut self)
        ensures
            final(self).spec_capacity() == old(self).spec_capacity(),
            final(self)@ == if old(self)@.len() == 0 {
                old(self)@
            } else {
                old(self)@.drop_first()
            },
    {
        let _ = self.pop_front();
    }
}

} // verus!
