//! A signal: a set of callbacks, each connected at most once, kept in the
//! order in which they were connected.

pub mod callable;
pub mod ids;
pub mod laws;
pub mod signal;

pub use callable::{Callable, Consumer};
pub use signal::{AlreadyConnected, Signal};
