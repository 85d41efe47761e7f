//! Backward call-graph analysis for abort-reaching call chains.
//!
//! The library ingests a toolchain-emitted call-graph text buffer together
//! with a newline-delimited list of exported symbol names, and reconstructs
//! the call chains through which an exported function can reach the
//! abort/unwind entry point, bounded by a configurable search depth.

pub mod directory;
pub mod emit;
pub mod errors;
pub mod isolate;
pub mod laws;
pub mod layout;
pub mod locate;
pub mod scan;
pub mod walk;
