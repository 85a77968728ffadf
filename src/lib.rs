//! Fixed-capacity ring buffers with overwrite-oldest semantics.
//!
//! - `ring_buffer`: the `RingBuffer` operations, stated over the sequence of
//!   live elements, and the laws of pushing and popping.
//! - `fixed_ring_buffer`: `FixedRingBuffer`, whose `CAP` cells are allocated
//!   once; `cells` holds its storage and the cursor arithmetic.
//! - `iter`: borrowing, draining and owning iterators.
//! - `fixed_string` and `history`: a ring of the most recent command lines.
//! - `shell`: a shell that hands commands to a `Dispatcher`, and the lookup
//!   of a command name in a table.

mod cells;
mod fixed_ring_buffer;
mod fixed_string;
mod history;
mod iter;
mod ring_buffer;
mod shell;

pub use fixed_ring_buffer::{elementwise_eq, lemma_eq_is_content_eq, FixedRingBuffer};
pub use fixed_string::{fitted, fitted_len, FixedString};
pub use history::{History, HistoryRing};
pub use iter::{deref_all, Iter, RingBufferDrainingIterator, RingBufferIntoIterator};
pub use ring_buffer::{
    lemma_pop_all_round_trip, lemma_pushes_keep_newest, newest, popped_n, pushed, pushed_all,
    RingBuffer,
};
pub use shell::{matching_commands, Dispatcher, Shell};
