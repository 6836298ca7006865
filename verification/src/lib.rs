//! A gap buffer: a growable sequence that keeps its free capacity in one movable gap,
//! so that edits clustered around one position cost time proportional to the distance
//! the gap has to travel, not to the length of the sequence.
//!
//! * [`buffer`]: the buffer, [`GapBuffer`], with its constructors, accessors and edits.
//!   Its view is the logical sequence of its elements.
//! * [`region`]: the backing region, a row of slots with the gap in it, and the steps
//!   that move the gap, fill it, widen it and carry the elements to a larger region.
//! * [`capacity`]: how many slots a region has, always a power of two.
//! * [`cost`]: how many elements an edit moves, and why insertions next to each other
//!   are cheap.
//! * [`iter`]: [`Items`], the iterator over a buffer or a part of it, from both ends.
//! * [`compare`]: equality and order of buffers, by their logical sequences.
//! * [`format`]: the text form of a buffer.
//! * [`std_traits`]: `Default` and `Clone`.
//! * [`laws`]: what follows for sequences of edits and of reads.

pub mod buffer;
pub mod capacity;
pub mod compare;
pub mod cost;
pub mod format;
pub mod iter;
pub mod laws;
pub mod region;
pub mod std_traits;

pub use buffer::GapBuffer;
pub use iter::Items;
