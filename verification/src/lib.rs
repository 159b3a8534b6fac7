//! Control-panel backend logic: singleton-instance guarding through a
//! process-identifier marker file, supervision of a spawned background
//! service, shutdown coordination, directory-tree listing for display, and
//! construction of remote secure-shell invocations.
//!
//! Every function here is pure: reading files, spawning processes and
//! probing process liveness stay with the caller, which hands the observed
//! plain values in and carries the returned decisions out.

pub mod browser;
pub mod digits;
pub mod guard;
pub mod remote;
pub mod runner;
pub mod shutdown;
pub mod supervisor;
pub mod text;
