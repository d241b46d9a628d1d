//! Reference-resolution and transitive-copy engine for migrating versioned
//! asset records between collections.
//!
//! The library is pure: it works on byte strings and in-memory record lists.
//! Reading, copying and writing files is left to the surrounding program,
//! which drives the worklist loop and executes the copy actions this engine
//! emits.

pub mod bytes;
pub mod engine;
pub mod extensions;
pub mod laws;
pub mod paths;
pub mod reconcile;
pub mod record;
