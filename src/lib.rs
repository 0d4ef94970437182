//! Stack-map metadata for ahead-of-time compiled WebAssembly: machine-state
//! checkpoints stored as diff chains, the offset lookup and chain replay that
//! rebuild the state at a safepoint, an exception table, and a deterministic
//! binary codec for all of it, up to the cache image that holds the code.

use vstd::prelude::*;

pub mod bytes;
pub mod codec;
pub mod exception;
pub mod function;
pub mod keyed;
pub mod state;
pub mod values;
pub mod wire;
