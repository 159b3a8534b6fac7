//! Local test running: the selector-to-script mapping, the paths handed to
//! the process runner, and the uniform result shape built from a finished
//! child process.
//!
//! Spawning the child and capturing its output stay with the caller; the
//! observed exit status and decoded output text come back here to be shaped
//! into a `TestResult`.

use vstd::prelude::*;
use vstd::string::StringExecFns;

use crate::text::concat2;
use crate::text::concat3;
use crate::text::str_eq;

verus! {

/// Uniform outcome of an externally-run command: did it exit successfully,
/// what it wrote to standard output, and — only when non-empty — what it
/// wrote to standard error.
#[derive(Debug)]
pub struct TestResult {
    pub success: bool,
    pub output: String,
    pub error: Option<String>,
}

/// The fixed mapping from symbolic test-type selectors to test script
/// names; every unknown selector falls back to the run-everything script.
pub open spec fn script_for(selector: Seq<char>) -> Seq<char> {
    if selector == "routing"@ {
        "test_routing.php"@
    } else if selector == "visitor"@ {
        "test_user_journey_visitor.php"@
    } else if selector == "user"@ {
        "test_user_journey_user.php"@
    } else if selector == "admin"@ {
        "test_user_journey_admin.php"@
    } else if selector == "database"@ {
        "test_install_db.php"@
    } else if selector == "audit"@ {
        "run_with_audit.php"@
    } else {
        "run_all_tests.php"@
    }
}

/// The script a selector runs.
pub fn test_script_name(selector: &str) -> (r: &'static str)
    ensures
        r@ == script_for(selector@),
{
    if str_eq(selector, "routing") {
        "test_routing.php"
    } else if str_eq(selector, "visitor") {
        "test_user_journey_visitor.php"
    } else if str_eq(selector, "user") {
        "test_user_journey_user.php"
    } else if str_eq(selector, "admin") {
        "test_user_journey_admin.php"
    } else if str_eq(selector, "database") {
        "test_install_db.php"
    } else if str_eq(selector, "audit") {
        "run_with_audit.php"
    } else {
        "run_all_tests.php"
    }
}

/// The directory holding the test scripts, resolved under the caller's home
/// directory.
pub fn scanner_dir(home: &str) -> (r: String)
    ensures
        r@ == home@ + "/CascadeProjects/scout94"@,
{
    concat2(home, "/CascadeProjects/scout94")
}

/// The full path of a script inside a directory.
pub fn script_path(dir: &str, script: &str) -> (r: String)
    ensures
        r@ == dir@ + "/"@ + script@,
{
    concat3(dir, "/", script)
}

/// The error returned when the selected test script is missing on disk.
pub fn missing_script_message(path: &str, dir: &str) -> (r: String)
    ensures
        r@ == "Test script not found: "@ + path@ + "\n\nScout94 tests should be in: "@ + dir@,
{
    let mut s = "Test script not found: ".to_owned();
    s.append(path);
    s.append("\n\nScout94 tests should be in: ");
    s.append(dir);
    s
}

/// The error returned when the test child process could not be created at
/// all — distinct from a child that ran and failed.
pub fn spawn_failure_message(detail: &str) -> (r: String)
    ensures
        r@ == "Failed to execute test: "@ + detail@,
{
    concat2("Failed to execute test: ", detail)
}

/// The error returned when a generic command child process could not be
/// created.
pub fn command_spawn_failure_message(detail: &str) -> (r: String)
    ensures
        r@ == "Failed to execute command: "@ + detail@,
{
    concat2("Failed to execute command: ", detail)
}

/// Shapes a finished child process into the uniform result: success follows
/// the exit status, output is the decoded standard output, and standard
/// error is reported only when it said something.
pub fn make_test_result(success: bool, output: String, stderr: String) -> (r: TestResult)
    ensures
        r.success == success,
        r.output == output,
        stderr@.len() == 0 ==> r.error is None,
        stderr@.len() > 0 ==> r.error == Some(stderr),
{
    if stderr.as_str().is_empty() {
        TestResult { success, output, error: None }
    } else {
        TestResult { success, output, error: Some(stderr) }
    }
}

} // verus!
