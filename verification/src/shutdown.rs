//! Shutdown coordinator.
//!
//! Every termination path must drive the same fixed sequence: stop the
//! supervised service, release the instance marker, then sweep the process
//! list for escaped descendants. Each step is independent and
//! failure-tolerant — a failed step never prevents the next from running —
//! which the caller realises by performing the steps of the returned plan in
//! order, logging and continuing on any individual failure.

use vstd::prelude::*;

verus! {

/// One coordinator step.
#[derive(Debug, PartialEq, Eq, Structural, Clone, Copy)]
pub enum ShutdownStep {
    /// Graceful-then-forced termination of the supervised service.
    StopService,
    /// Removal of the instance marker file.
    ReleaseMarker,
    /// Force-termination of any process whose command line matches a known
    /// service-identifying pattern.
    SweepOrphans,
}

/// The coordinator's fixed order.
pub open spec fn spec_shutdown_plan() -> Seq<ShutdownStep> {
    seq![ShutdownStep::StopService, ShutdownStep::ReleaseMarker, ShutdownStep::SweepOrphans]
}

/// The steps of a clean shutdown, in the one order every termination path
/// uses.
pub fn shutdown_plan() -> (steps: Vec<ShutdownStep>)
    ensures
        steps@ == spec_shutdown_plan(),
{
    let mut steps: Vec<ShutdownStep> = Vec::new();
    steps.push(ShutdownStep::StopService);
    steps.push(ShutdownStep::ReleaseMarker);
    steps.push(ShutdownStep::SweepOrphans);
    proof {
        assert(steps@ =~= spec_shutdown_plan());
    }
    steps
}

/// The command-line substrings the orphan sweep matches against the process
/// list, exactly as the safety net greps for them.
pub fn orphan_patterns() -> (pats: Vec<String>)
    ensures
        pats@.len() == 2,
        pats@[0]@ == "websocket-server"@,
        pats@[1]@ == "scout94.*node"@,
{
    let mut pats: Vec<String> = Vec::new();
    pats.push("websocket-server".to_owned());
    pats.push("scout94.*node".to_owned());
    pats
}

} // verus!
