//! Background service supervisor.
//!
//! At startup the application spawns one auxiliary long-running service as a
//! child process; at shutdown that child must be gone, gracefully if it
//! cooperates and by force if not. The supervisor here owns the handle as a
//! value (the child's process identifier) and decides; the caller performs
//! the spawning, signalling, pausing, killing and reaping it is told to.

use vstd::prelude::*;

verus! {

/// Ownership of the spawned service's child process, as a value. Empty
/// until a child is recorded, and cleared — never reused — once taken for
/// termination.
pub struct Supervisor {
    pub handle: Option<u32>,
}

/// One step of graceful-then-forced termination, in the order the caller
/// must perform them.
#[derive(Debug, PartialEq, Eq, Structural, Clone, Copy)]
pub enum StopAction {
    /// Send the cooperative termination-request signal.
    RequestTermination(u32),
    /// Wait the bounded grace interval for voluntary exit.
    GracePause,
    /// Unconditionally force-terminate.
    ForceKill(u32),
    /// Block until the child's exit status is collected, so no zombie
    /// remains.
    Reap(u32),
}

/// The actions stopping a supervisor performs: nothing when no child is
/// held; for a held child, termination request, grace pause, forced kill and
/// reap, in exactly that order.
pub open spec fn spec_stop_plan(handle: Option<u32>) -> Seq<StopAction> {
    match handle {
        None => Seq::empty(),
        Some(pid) => seq![
            StopAction::RequestTermination(pid),
            StopAction::GracePause,
            StopAction::ForceKill(pid),
            StopAction::Reap(pid),
        ],
    }
}

/// Stopping as a state transition: the handle is always cleared, and the
/// plan is determined by what was held.
pub open spec fn spec_stop(handle: Option<u32>) -> (Option<u32>, Seq<StopAction>) {
    (None, spec_stop_plan(handle))
}

/// The fixed name of the directory, two levels above the application's
/// working directory, in which the service lives.
pub fn service_dir_name() -> (r: &'static str)
    ensures
        r@ == "websocket-server"@,
{
    "websocket-server"
}

impl Supervisor {
    /// A supervisor holding no child.
    pub fn new() -> (s: Self)
        ensures
            s.handle is None,
    {
        Supervisor { handle: None }
    }

    /// Records the child the caller just spawned.
    pub fn record_started(&mut self, pid: u32)
        ensures
            final(self).handle == Some(pid),
    {
        self.handle = Some(pid);
    }

    /// Takes ownership for termination: clears the stored handle — so a
    /// concurrent or repeated stop finds nothing to act on — and returns
    /// the steps the caller must perform, in order.
    pub fn stop(&mut self) -> (plan: Vec<StopAction>)
        ensures
            (final(self).handle, plan@) == spec_stop(old(self).handle),
    {
        let taken = self.handle;
        self.handle = None;
        let mut plan: Vec<StopAction> = Vec::new();
        if let Some(pid) = taken {
            plan.push(StopAction::RequestTermination(pid));
            plan.push(StopAction::GracePause);
            plan.push(StopAction::ForceKill(pid));
            plan.push(StopAction::Reap(pid));
        }
        proof {
            assert(plan@ =~= spec_stop_plan(old(self).handle));
        }
        plan
    }
}

/// After a stop, a second stop is a no-op: the handle is already empty and
/// the second plan holds no action at all.
pub proof fn law_second_stop_no_op(handle: Option<u32>)
    ensures
        spec_stop(spec_stop(handle).0).1 =~= Seq::<StopAction>::empty(),
        spec_stop(spec_stop(handle).0).0 is None,
{
}

} // verus!
