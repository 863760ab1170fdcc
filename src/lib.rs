//! An in-memory key-value store with time-to-live expiry, and the
//! interpreter of its line-oriented text protocol.
//!
//! Time is handed in by the caller as a count of milliseconds, so every
//! operation here is a function of the store, its arguments and that clock
//! reading.

pub mod value;
pub mod state;
pub mod text;
pub mod parse;
pub mod command;
pub mod laws;

pub use state::State as KeyStore;


