//! Building blocks of a loudness meter: the trailing sample window that the
//! RMS reading is taken over, and the hold / attack / release decisions of an
//! envelope follower.

pub mod hold;
pub mod ring;

pub use hold::{HoldCounter, Motion, Step};
pub use ring::{CircularBuffer, RING_CAPACITY};
