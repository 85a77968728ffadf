use vstd::prelude::*;
use vstd::string::StringSliceAdditionalSpecFns;

use crate::fixed_ring_buffer::FixedRingBuffer;
use crate::fixed_string::{fitted, FixedString};
use crate::ring_buffer::{pushed, RingBuffer};

verus! {

/// A bounded record of the most recent entries of a command line. The view
/// is the UTF-8 bytes of each entry, oldest first.
pub trait History: View<V = Seq<Seq<u8>>> {
    /// The number of entries kept.
    spec fn spec_max_entries(&self) -> nat;

    /// The most bytes kept of one entry.
    spec fn spec_entry_size(&self) -> nat;

    /// Forgets every entry.
    fn reset(&mut self)
        ensures
            final(self)@ == Seq::<Seq<u8>>::empty(),
            final(self).spec_max_entries() == old(self).spec_max_entries(),
            final(self).spec_entry_size() == old(self).spec_entry_size(),
    ;

    /// The number of entries kept; never more than the number of entries
    /// kept when full, which is never zero.
    fn entry_count(&self) -> (r: usize)
        ensures
            r == self@.len(),
            r <= self.spec_max_entries(),
            self.spec_max_entries() > 0,
    ;

    fn is_full(&self) -> (r: bool)
        ensures
            r == (self@.len() == self.spec_max_entries()),
    ;

    fn is_empty(&self) -> (r: bool)
        ensures
            r == (self@.len() == 0),
    ;

    /// Records `entry`, cut to the entry size, as the most recent entry; the
    /// oldest one is forgotten when full.
    fn push_entry(&mut self, entry: &str)
        ensures
            final(self)@ == pushed(
                old(self)@,
                fitted(entry, old(self).spec_entry_size()),
                old(self).spec_max_entries(),
            ),
            final(self).spec_max_entries() == old(self).spec_max_entries(),
            final(self).spec_entry_size() == old(self).spec_entry_size(),
    ;

    /// The entry recorded `age` entries before the most recent one (0 is the
    /// most recent), if it is still kept.
    fn get_entry(&self, age: usize) -> (r: Option<&str>)
        ensures
            age < self@.len() ==> r is Some && r->Some_0.spec_bytes() == self@[self@.len() - 1
                - age],
            age >= self@.len() ==> r is None,
    ;
}

/// A history of the last `CAP` entries of at most `STRING_SIZE` bytes each,
/// kept in a ring buffer.
pub struct HistoryRing<const CAP: usize, const STRING_SIZE: usize> {
    entries: FixedRingBuffer<FixedString<STRING_SIZE>, CAP>,
}

impl<const CAP: usize, const STRING_SIZE: usize> View for HistoryRing<CAP, STRING_SIZE> {
    type V = Seq<Seq<u8>>;

    /// The bytes of each entry kept, oldest first.
    closed spec fn view(&self) -> Seq<Seq<u8>> {
        self.entries@.map_values(|e: FixedString<STRING_SIZE>| e@)
    }
}

impl<const CAP: usize, const STRING_SIZE: usize> HistoryRing<CAP, STRING_SIZE> {
    /// An empty history; a capacity of zero is rejected.
    pub fn new() -> (r: Self)
        requires
            CAP > 0,
        ensures
            r@ == Seq::<Seq<u8>>::empty(),
    {
        let r = HistoryRing { entries: FixedRingBuffer::new() };
        assert(r@ =~= Seq::<Seq<u8>>::empty());
        r
    }

    /// Forgets every entry.
    pub fn reset(&mut self)
        ensures
            final(self)@ == Seq::<Seq<u8>>::empty(),
    {
        self.entries.clear();
        assert(self@ =~= Seq::<Seq<u8>>::empty());
    }

    /// The number of entries kept; never more than `CAP`, which is never
    /// zero.
    pub fn entry_count(&self) -> (r: usize)
        ensures
            r == self@.len(),
            r <= CAP,
            CAP > 0,
    {
        self.entries.len()
    }

    pub fn is_full(&self) -> (r: bool)
        ensures
            r == (self@.len() == CAP),
    {
        self.entries.is_full()
    }

    pub fn is_empty(&self) -> (r: bool)
        ensures
            r == (self@.len() == 0),
    {
        self.entries.is_empty()
    }

    /// Records `entry`, cut to `STRING_SIZE` bytes, as the most recent entry;
    /// the oldest one is forgotten when full.
    pub fn push_entry(&mut self, entry: &str)
        ensures
            final(self)@ == pushed(old(self)@, fitted(entry, STRING_SIZE as nat), CAP as nat),
    {
        let ghost before = self.entries@;
        let text = FixedString::from_str(entry);
        self.entries.push_back(text);
        proof {
            if before.len() >= CAP {
                assert(self.entries@ == before.drop_first().push(text));
                assert(self@ =~= old(self)@.drop_first().push(text@));
            } else {
                assert(self@ =~= old(self)@.push(text@));
            }
        }
    }

    /// The entry recorded `age` entries before the most recent one (0 is the
    /// most recent), if it is still kept.
    pub fn get_entry(&self, age: usize) -> (r: Option<&str>)
        ensures
            age < self@.len() ==> r is Some && r->Some_0.spec_bytes() == self@[self@.len() - 1
                - age],
            age >= self@.len() ==> r is None,
    {
        let n = self.entries.len();
        if age >= n {
            None
        } else {
            match self.entries.get(n - 1 - age) {
                Some(e) => Some(e.as_str()),
                None => None,
            }
        }
    }
}

impl<const CAP: usize, const STRING_SIZE: usize> History for HistoryRing<CAP, STRING_SIZE> {
    open spec fn spec_max_entries(&self) -> nat {
        CAP as nat
    }

    open spec fn spec_entry_size(&self) -> nat {
        STRING_SIZE as nat
    }

    fn reset(&mut self) {
        HistoryRing::reset(self)
    }

    fn entry_count(&self) -> (r: usize) {
        assert(self.spec_max_entries() == CAP);
        HistoryRing::entry_count(self)
    }

    fn is_full(&self) -> (r: bool) {
        HistoryRing::is_full(self)
    }

    fn is_empty(&self) -> (r: bool) {
        HistoryRing::is_empty(self)
    }

    fn push_entry(&mut self, entry: &str) {
        HistoryRing::push_entry(self, entry)
    }

    fn get_entry(&self, age: usize) -> (r: Option<&str>) {
        HistoryRing::get_entry(self, age)
    }
}

} // verus!
