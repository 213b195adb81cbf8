pub mod digit;
pub mod radix;
pub mod state;

pub use digit::{Base, WriteValue};
pub use state::{State, StateError};
