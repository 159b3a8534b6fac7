//! The local test runner's mapping, paths and result shaping.

use scout94::runner::command_spawn_failure_message;
use scout94::runner::make_test_result;
use scout94::runner::missing_script_message;
use scout94::runner::scanner_dir;
use scout94::runner::script_path;
use scout94::runner::spawn_failure_message;
use scout94::runner::test_script_name;

#[test]
fn every_selector_maps_to_its_script() {
    assert_eq!(test_script_name("routing"), "test_routing.php");
    assert_eq!(test_script_name("visitor"), "test_user_journey_visitor.php");
    assert_eq!(test_script_name("user"), "test_user_journey_user.php");
    assert_eq!(test_script_name("admin"), "test_user_journey_admin.php");
    assert_eq!(test_script_name("database"), "test_install_db.php");
    assert_eq!(test_script_name("audit"), "run_with_audit.php");
    assert_eq!(test_script_name("all"), "run_all_tests.php");
}

#[test]
fn unknown_selectors_fall_back_to_running_everything() {
    assert_eq!(test_script_name("anything else"), "run_all_tests.php");
    assert_eq!(test_script_name(""), "run_all_tests.php");
    assert_eq!(test_script_name("Routing"), "run_all_tests.php");
}

#[test]
fn scanner_paths_are_resolved_under_home() {
    let dir = scanner_dir("/Users/mac");
    assert_eq!(dir, "/Users/mac/CascadeProjects/scout94");
    let path = script_path(&dir, "test_routing.php");
    assert_eq!(path, "/Users/mac/CascadeProjects/scout94/test_routing.php");
}

#[test]
fn silence_on_standard_error_reports_no_error() {
    let r = make_test_result(true, String::from("all good"), String::new());
    assert!(r.success);
    assert_eq!(r.output, "all good");
    assert!(r.error.is_none());
}

#[test]
fn words_on_standard_error_are_reported() {
    let r = make_test_result(false, String::from("partial"), String::from("boom"));
    assert!(!r.success);
    assert_eq!(r.output, "partial");
    assert_eq!(r.error.as_deref(), Some("boom"));
}

#[test]
fn error_messages_carry_their_detail() {
    let m = missing_script_message("/s/test_routing.php", "/s");
    assert_eq!(m, "Test script not found: /s/test_routing.php\n\nScout94 tests should be in: /s");
    assert_eq!(spawn_failure_message("no php"), "Failed to execute test: no php");
    assert_eq!(
        command_spawn_failure_message("no such file"),
        "Failed to execute command: no such file"
    );
}
