use vstd::prelude::*;

use crate::iter::deref_all;
use crate::ring_buffer::pushed;

verus! {

/// Physical slot of logical offset `offset` in a ring of `cap` cells whose
/// oldest element sits at `start`: `(start + offset) mod cap` for
/// `start, offset < cap`, written without the modulus.
pub open spec fn ring_slot(start: int, offset: int, cap: int) -> int {
    if start + offset < cap {
        start + offset
    } else {
        start + offset - cap
    }
}

/// Distinct offsets of one ring land in distinct cells.
proof fn lemma_ring_slot_injective(start: int, i: int, j: int, cap: int)
    requires
        0 <= start < cap,
        0 <= i < cap,
        0 <= j < cap,
        i != j,
    ensures
        ring_slot(start, i, cap) != ring_slot(start, j, cap),
        0 <= ring_slot(start, i, cap) < cap,
{
}

/// The storage of a ring buffer: a fixed array of cells, each live (`Some`)
/// or empty (`None`), and a window of `length` live cells that starts at
/// `read_index` and wraps past the last cell.
pub struct Cells<T> {
    slots: Vec<Option<T>>,
    read_index: usize,
    length: usize,
}

impl<T> Cells<T> {
    pub closed spec fn cap(&self) -> nat {
        self.slots@.len()
    }

    /// The cell that holds the oldest element.
    pub closed spec fn start(&self) -> nat {
        self.read_index as nat
    }

    /// The cell that holds logical element `i`.
    closed spec fn cell(&self, i: int) -> Option<T> {
        self.slots@[ring_slot(self.read_index as int, i, self.cap() as int)]
    }

    /// A cell is live exactly when it lies in the window.
    pub closed spec fn inv(&self) -> bool {
        &&& self.cap() > 0
        &&& self.read_index < self.cap()
        &&& self.length <= self.cap()
        &&& forall|i: int|
            0 <= i < self.cap() ==> (#[trigger] self.cell(i) is Some <==> i < self.length)
    }

    /// The live elements, oldest first.
    pub closed spec fn contents(&self) -> Seq<T> {
        Seq::new(self.length as nat, |i: int| self.cell(i)->Some_0)
    }

    /// A consistent storage has at least one cell, its window starts at one
    /// of them, and it holds at most that many live elements.
    pub proof fn lemma_bounds(&self)
        requires
            self.inv(),
        ensures
            self.cap() > 0,
            self.start() < self.cap(),
            self.contents().len() <= self.cap(),
    {
    }

    pub fn new(cap: usize) -> (r: Self)
        requires
            cap > 0,
        ensures
            r.inv(),
            r.cap() == cap,
            r.contents() == Seq::<T>::empty(),
    {
        let mut slots: Vec<Option<T>> = Vec::with_capacity(cap);
        let mut k: usize = 0;
        while k < cap
            invariant
                k <= cap,
                slots@.len() == k,
                forall|j: int| 0 <= j < k ==> slots@[j] is None,
            decreases cap - k,
        {
            slots.push(None);
            k = k + 1;
        }
        let r = Cells { slots, read_index: 0, length: 0 };
        proof {
            assert(r.contents() =~= Seq::<T>::empty());
        }
        r
    }

    pub fn len(&self) -> (r: usize)
        requires
            self.inv(),
        ensures
            r == self.contents().len(),
            r <= self.cap(),
    {
        self.length
    }

    /// Physical index of logical offset `i`.
    fn slot(&self, i: usize) -> (r: usize)
        requires
            self.inv(),
            i < self.cap(),
        ensures
            r == ring_slot(self.read_index as int, i as int, self.cap() as int),
            r < self.cap(),
        no_unwind
    {
        let cap = self.slots.len();
        if i < cap - self.read_index {
            self.read_index + i
        } else {
            i - (cap - self.read_index)
        }
    }

    /// The index of the cell after `i`, wrapping to the first.
    fn next_index(&self, i: usize) -> (r: usize)
        requires
            i < self.cap(),
        ensures
            r == ring_slot(i as int, 1, self.cap() as int),
        no_unwind
    {
        if i == self.slots.len() - 1 {
            0
        } else {
            i + 1
        }
    }

    pub fn get(&self, index: usize) -> (r: Option<&T>)
        requires
            self.inv(),
        ensures
            index < self.contents().len() ==> r == Some(&self.contents()[index as int]),
            index >= self.contents().len() ==> r is None,
    {
        if index < self.length {
            let p = self.slot(index);
            self.slots[p].as_ref()
        } else {
            None
        }
    }

    pub fn get_mut(&mut self, index: usize) -> (r: Option<&mut T>)
        requires
            old(self).inv(),
        ensures
            final(self).inv(),
            final(self).cap() == old(self).cap(),
            index >= old(self).contents().len() ==> r is None && final(self).contents() == old(self).contents(),
            index < old(self).contents().len() ==> r is Some && *r->Some_0 == old(self).contents()[index as int] && final(self).contents() == old(self).contents().update(
                index as int,
                *final(r->Some_0),
            ),
        no_unwind
    {
        if index < self.length {
            let p = self.slot(index);
            let ghost before = *self;
            assert(before.cell(index as int) is Some);
            let r = match &mut self.slots[p] {
                Some(x) => Some(x),
                None => None,
            };
            proof {
                assert forall|i: int| 0 <= i < before.cap() implies #[trigger] after_borrow(self).cell(i) == if i == index {
                    Some(*final(r->Some_0))
                } else {
                    before.cell(i)
                } by {
                    if i != index {
                        lemma_ring_slot_injective(
                            before.read_index as int,
                            i,
                            index as int,
                            before.cap() as int,
                        );
                    }
                }
                assert(after_borrow(self).contents() =~= before.contents().update(
                    index as int,
                    *final(r->Some_0),
                ));
            }
            r
        } else {
            None
        }
    }

    pub fn push(&mut self, value: T)
        requires
            old(self).inv(),
        ensures
            final(self).inv(),
            final(self).cap() == old(self).cap(),
            final(self).contents() == pushed(old(self).contents(), value, old(self).cap()),
        no_unwind
    {
        let ghost before = *self;
        let cap = self.slots.len();
        if self.length == cap {
            let oldest = self.read_index;
            self.slots[oldest] = Some(value);
            self.read_index = self.next_index(oldest);
            proof {
                assert forall|i: int| 0 <= i < cap implies #[trigger] self.cell(i) == if i + 1
                    < cap {
                    before.cell(i + 1)
                } else {
                    Some(value)
                } by {
                    if i + 1 < cap {
                        lemma_ring_slot_injective(before.read_index as int, i + 1, 0, cap as int);
                    }
                }
                assert(self.contents() =~= before.contents().drop_first().push(value));
            }
        } else {
            let w = self.slot(self.length);
            self.slots[w] = Some(value);
            self.length = self.length + 1;
            proof {
                assert forall|i: int| 0 <= i < cap implies #[trigger] self.cell(i) == if i
                    == before.length {
                    Some(value)
                } else {
                    before.cell(i)
                } by {
                    if i != before.length {
                        lemma_ring_slot_injective(
                            before.read_index as int,
                            i,
                            before.length as int,
                            cap as int,
                        );
                    }
                }
                assert(self.contents() =~= before.contents().push(value));
            }
        }
    }

    pub fn pop(&mut self) -> (r: Option<T>)
        requires
            old(self).inv(),
        ensures
            final(self).inv(),
            final(self).cap() == old(self).cap(),
            old(self).contents().len() == 0 ==> r is None && final(self).contents() == old(self).contents(),
            old(self).contents().len() > 0 ==> r == Some(old(self).contents()[0])
                && final(self).contents() == old(self).contents().drop_first(),
        no_unwind
    {
        let ghost before = *self;
        let cap = self.slots.len();
        if self.length == 0 {
            None
        } else {
            let oldest = self.read_index;
            let mut r: Option<T> = None;
            core::mem::swap(&mut self.slots[oldest], &mut r);
            self.read_index = self.next_index(oldest);
            self.length = self.length - 1;
            proof {
                assert(before.cell(0) == r);
                assert forall|i: int| 0 <= i < cap implies #[trigger] self.cell(i) == if i + 1
                    < cap {
                    before.cell(i + 1)
                } else {
                    None
                } by {
                    if i + 1 < cap {
                        lemma_ring_slot_injective(before.read_index as int, i + 1, 0, cap as int);
                    }
                }
                assert(self.contents() =~= before.contents().drop_first());
            }
            r
        }
    }

    /// Drops every live element and moves the window back to the first cell.
    pub fn clear(&mut self)
        requires
            old(self).inv(),
        ensures
            final(self).inv(),
            final(self).cap() == old(self).cap(),
            final(self).contents() == Seq::<T>::empty(),
        no_unwind
    {
        while self.length > 0
            invariant
                self.inv(),
                self.cap() == old(self).cap(),
            decreases self.length,
        {
            let ghost n = self.length;
            let _ = self.pop();
            assert(self.contents().len() == n - 1);
        }
        let ghost before = *self;
        let cap = self.slots.len();
        proof {
            assert forall|j: int| 0 <= j < cap implies #[trigger] before.slots@[j] is None by {
                let i = if j >= before.read_index {
                    j - before.read_index
                } else {
                    j + cap - before.read_index
                };
                assert(before.cell(i) is None);
            }
        }
        self.read_index = 0;
        proof {
            assert(self.contents() =~= Seq::<T>::empty());
        }
    }

    /// The live elements as two runs of references: the cells from the
    /// window's start to the last cell, then those from the first cell on.
    pub fn as_slices(&self) -> (r: (Vec<&T>, Vec<&T>))
        requires
            self.inv(),
        ensures
            deref_all(r.0@) + deref_all(r.1@) == self.contents(),
            r.0@.len() == if self.contents().len() <= self.cap() - self.start() {
                self.contents().len() as int
            } else {
                self.cap() - self.start()
            },
            r.1@.len() == self.contents().len() - r.0@.len(),
    {
        let cap = self.slots.len();
        let mut start: Vec<&T> = Vec::new();
        let mut end: Vec<&T> = Vec::new();
        let mut i: usize = 0;
        while i < self.length
            invariant
                self.inv(),
                cap == self.cap(),
                i <= self.length,
                start@.len() == if i <= cap - self.read_index {
                    i as int
                } else {
                    cap - self.read_index
                },
                end@.len() == i - start@.len(),
                deref_all(start@) + deref_all(end@) == self.contents().subrange(0, i as int),
            decreases self.length - i,
        {
            let p = self.slot(i);
            assert(self.cell(i as int) is Some);
            let x = self.slots[p].as_ref().unwrap();
            if p >= self.read_index {
                start.push(x);
            } else {
                end.push(x);
            }
            i = i + 1;
            assert(deref_all(start@) + deref_all(end@) =~= self.contents().subrange(0, i as int));
        }
        assert(self.contents().subrange(0, self.length as int) =~= self.contents());
        (start, end)
    }
}

} // verus!
