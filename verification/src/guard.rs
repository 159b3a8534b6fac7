//! Singleton instance guard.
//!
//! At most one live application instance may run at a time. A marker file at
//! a well-known path records the process identifier of the running instance
//! as decimal text. This module holds the guard's entire decision logic over
//! a value model of that file: the caller reads the file, probes the recorded
//! process for liveness, and carries the returned marker state back to disk.
//!
//! The probe-then-claim sequence is not atomic against a second instance
//! racing the same check; that narrow window is an accepted limitation of the
//! design (a single-desktop-user tool, not a distributed lock).

use vstd::prelude::*;

use crate::digits::dec_str;
use crate::digits::lemma_parse_formatted;
use crate::digits::parse_u32;
use crate::digits::parse_u32_text;
use crate::digits::u32_to_decimal;

verus! {

/// The marker file as a value: its text when the file exists, nothing when
/// it does not.
pub struct MarkerFile {
    pub content: Option<String>,
}

/// The outcome of a launch attempt.
#[derive(Debug, PartialEq, Eq, Structural, Clone, Copy)]
pub enum AcquireOutcome {
    /// A prior instance is alive; the caller must exit without side effects.
    AlreadyRunning,
    /// The caller now owns the instance; the marker records its identifier.
    Claimed,
}

/// The model of a marker file: its character content, or nothing.
pub open spec fn marker_view(m: MarkerFile) -> Option<Seq<char>> {
    match m.content {
        Some(s) => Some(s@),
        None => None,
    }
}

/// The process identifier a marker records: present exactly when the file
/// exists and its text parses as a decimal identifier.
pub open spec fn spec_marker_pid(m: Option<Seq<char>>) -> Option<u32> {
    match m {
        Some(s) => parse_u32(s),
        None => None,
    }
}

/// The guard's acquisition step. `prior_alive` is the answer of the
/// platform's liveness probe on the recorded identifier; it is consulted
/// only when a marker records one. A live prior instance refuses the
/// attempt and leaves the marker untouched; an absent, unparsable or stale
/// marker is replaced by the caller's own identifier.
pub open spec fn spec_acquire(m: Option<Seq<char>>, prior_alive: bool, self_pid: u32) -> (Option<
    Seq<char>,
>, AcquireOutcome) {
    if spec_marker_pid(m) is Some && prior_alive {
        (m, AcquireOutcome::AlreadyRunning)
    } else {
        (Some(dec_str(self_pid as nat)), AcquireOutcome::Claimed)
    }
}

/// Releasing the guard removes the marker, whatever it held.
pub open spec fn spec_release(m: Option<Seq<char>>) -> Option<Seq<char>> {
    None
}

/// The fixed name of the marker file inside the platform's temporary
/// directory.
pub fn marker_file_name() -> (r: &'static str)
    ensures
        r@ == "scout94.pid"@,
{
    "scout94.pid"
}

/// The process identifier recorded by a marker, if any. Unreadable file
/// content is handed in as it was read; text that does not parse yields
/// nothing, which the guard treats as a stale marker.
pub fn marker_pid(m: &MarkerFile) -> (r: Option<u32>)
    ensures
        r == spec_marker_pid(marker_view(*m)),
{
    match &m.content {
        Some(s) => parse_u32_text(s.as_str()),
        None => None,
    }
}

/// The text a claiming instance writes: its identifier as decimal digits.
pub fn marker_content(self_pid: u32) -> (r: String)
    ensures
        r@ == dec_str(self_pid as nat),
{
    u32_to_decimal(self_pid)
}

/// One launch attempt. The caller reads the marker file into `marker`,
/// probes liveness of the identifier `marker_pid` reports (passing `false`
/// when there is none to probe), and afterwards writes the returned marker
/// state back: claiming overwrites the file, a refusal changes nothing.
pub fn acquire(marker: MarkerFile, prior_alive: bool, self_pid: u32) -> (r: (
    MarkerFile,
    AcquireOutcome,
))
    ensures
        (marker_view(r.0), r.1) == spec_acquire(marker_view(marker), prior_alive, self_pid),
{
    let recorded = marker_pid(&marker);
    if recorded.is_some() && prior_alive {
        (marker, AcquireOutcome::AlreadyRunning)
    } else {
        (MarkerFile { content: Some(marker_content(self_pid)) }, AcquireOutcome::Claimed)
    }
}

/// Releasing the guard: the marker file is deleted. Idempotent by
/// construction — releasing an absent marker is the same no-op.
pub fn release(marker: MarkerFile) -> (r: MarkerFile)
    ensures
        marker_view(r) == spec_release(marker_view(marker)),
{
    MarkerFile { content: None }
}

/// While the recorded instance is alive, every further launch attempt is
/// refused and performs no marker mutation.
pub proof fn law_live_instance_refused(m: Option<Seq<char>>, self_pid: u32)
    requires
        spec_marker_pid(m) is Some,
    ensures
        spec_acquire(m, true, self_pid) == (m, AcquireOutcome::AlreadyRunning),
{
}

/// For a pair of launch attempts whose first claimed the instance: while
/// the first claimant is alive, the second attempt is refused and performs
/// no marker mutation.
pub proof fn law_second_launch_refused(
    m0: Option<Seq<char>>,
    prior_alive: bool,
    first_pid: u32,
    second_pid: u32,
)
    requires
        spec_acquire(m0, prior_alive, first_pid).1 == AcquireOutcome::Claimed,
    ensures
        spec_acquire(spec_acquire(m0, prior_alive, first_pid).0, true, second_pid) == (
            spec_acquire(m0, prior_alive, first_pid).0,
            AcquireOutcome::AlreadyRunning,
        ),
{
    lemma_parse_formatted(first_pid);
}

/// A marker whose recorded process is not alive — or whose content does not
/// parse, or which is absent — never blocks a launch: acquisition succeeds
/// and the marker is rewritten with the caller's own identifier, which reads
/// back exactly.
pub proof fn law_stale_marker_reclaimed(m: Option<Seq<char>>, prior_alive: bool, self_pid: u32)
    requires
        spec_marker_pid(m) is None || !prior_alive,
    ensures
        spec_acquire(m, prior_alive, self_pid).1 == AcquireOutcome::Claimed,
        spec_acquire(m, prior_alive, self_pid).0 == Some(dec_str(self_pid as nat)),
        spec_marker_pid(spec_acquire(m, prior_alive, self_pid).0) == Some(self_pid),
{
    lemma_parse_formatted(self_pid);
}

/// Release is idempotent: releasing twice leaves what releasing once left.
pub proof fn law_release_idempotent(m: Option<Seq<char>>)
    ensures
        spec_release(spec_release(m)) == spec_release(m),
{
}

} // verus!
