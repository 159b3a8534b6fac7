//! The background service supervisor and the shutdown coordinator.

use scout94::shutdown::orphan_patterns;
use scout94::shutdown::shutdown_plan;
use scout94::shutdown::ShutdownStep;
use scout94::supervisor::service_dir_name;
use scout94::supervisor::StopAction;
use scout94::supervisor::Supervisor;

#[test]
fn stop_of_a_live_handle_is_graceful_then_forced() {
    let mut sup = Supervisor::new();
    sup.record_started(7);
    let plan = sup.stop();
    assert_eq!(
        plan,
        vec![
            StopAction::RequestTermination(7),
            StopAction::GracePause,
            StopAction::ForceKill(7),
            StopAction::Reap(7),
        ]
    );
}

#[test]
fn second_stop_is_a_no_op() {
    let mut sup = Supervisor::new();
    sup.record_started(7);
    let first = sup.stop();
    assert_eq!(first.len(), 4);
    let second = sup.stop();
    assert!(second.is_empty());
    assert!(sup.handle.is_none());
}

#[test]
fn stop_without_a_child_does_nothing() {
    let mut sup = Supervisor::new();
    assert!(sup.stop().is_empty());
}

#[test]
fn service_directory_name_is_fixed() {
    assert_eq!(service_dir_name(), "websocket-server");
}

#[test]
fn shutdown_runs_its_three_steps_in_order() {
    assert_eq!(
        shutdown_plan(),
        vec![
            ShutdownStep::StopService,
            ShutdownStep::ReleaseMarker,
            ShutdownStep::SweepOrphans,
        ]
    );
}

#[test]
fn orphan_sweep_matches_the_known_patterns() {
    let pats = orphan_patterns();
    assert_eq!(pats, vec![String::from("websocket-server"), String::from("scout94.*node")]);
}
