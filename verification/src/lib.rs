//! Inspection and mutation planning for the online/offline state of CPU
//! cores, as exposed by the kernel through textual core-range notation.
//!
//! The crate is organised as a set of pure components:
//! - [`chars`]: character classification and decimal numerals;
//! - [`core_list`]: the range-notation codec (`0-2,4` and friends);
//! - [`cpu_state`]: the snapshot of present/online cores and its invariants;
//! - [`set_state`]: planning of minimal state transitions against a snapshot;
//! - [`privilege`]: the decision logic of the privilege drop/restore protocol;
//! - [`render`]: textual and JSON rendering of a snapshot.
//!
//! All filesystem and process-identity side effects are performed by the
//! surrounding binary; this crate only decides what must be done.

use vstd::prelude::*;

pub mod chars;
pub mod core_list;
pub mod cpu_state;
pub mod privilege;
pub mod render;
pub mod set_state;

verus! {

/// Errors of the core-state components.
#[derive(Clone, Copy, Debug, PartialEq, Eq, Structural)]
pub enum CoresError {
    /// A core-range notation string was not well formed.
    MalformedRange,
    /// The present-core or online-core source text could not be understood.
    UnreadableTopology,
}

} // verus!
