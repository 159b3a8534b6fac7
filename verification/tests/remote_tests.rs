//! Remote invocations and the interpretation of their outcomes.

use scout94::remote::check_access_args;
use scout94::remote::deploy_after_copy;
use scout94::remote::deploy_after_mkdir;
use scout94::remote::deploy_mkdir_args;
use scout94::remote::deploy_scp_args;
use scout94::remote::remote_run_result;
use scout94::remote::run_remote_args;
use scout94::remote::DeployPhase;
use scout94::remote::RemoteConfig;
use scout94::remote::RunOutcome;

fn config(port: Option<u16>, key: Option<&str>) -> RemoteConfig {
    RemoteConfig {
        host: String::from("example.com"),
        user: String::from("deploy"),
        port,
        key_path: key.map(String::from),
        remote_path: String::from("/srv/app"),
    }
}

#[test]
fn mkdir_invocation_uses_the_default_port() {
    let args = deploy_mkdir_args(&config(None, None));
    assert_eq!(
        args,
        vec![
            String::from("-p"),
            String::from("22"),
            String::from("deploy@example.com"),
            String::from("mkdir -p /srv/app/scout94"),
        ]
    );
}

#[test]
fn mkdir_invocation_takes_port_and_key_overrides() {
    let args = deploy_mkdir_args(&config(Some(2222), Some("/home/me/.ssh/id")));
    assert_eq!(
        args,
        vec![
            String::from("-p"),
            String::from("2222"),
            String::from("-i"),
            String::from("/home/me/.ssh/id"),
            String::from("deploy@example.com"),
            String::from("mkdir -p /srv/app/scout94"),
        ]
    );
}

#[test]
fn copy_invocation_names_source_and_destination() {
    let args = deploy_scp_args(&config(None, None), "/Users/mac/CascadeProjects/scout94");
    assert_eq!(
        args,
        vec![
            String::from("-P"),
            String::from("22"),
            String::from("-r"),
            String::from("/Users/mac/CascadeProjects/scout94/*"),
            String::from("deploy@example.com:/srv/app/scout94/"),
        ]
    );
}

#[test]
fn remote_run_invocation_maps_the_selector() {
    let args = run_remote_args(&config(None, None), "database", "/var/www/project");
    assert_eq!(
        args,
        vec![
            String::from("-p"),
            String::from("22"),
            String::from("deploy@example.com"),
            String::from("cd /var/www/project && php /srv/app/scout94/test_install_db.php"),
        ]
    );
}

#[test]
fn reachability_probe_has_a_short_timeout() {
    let args = check_access_args(&config(None, None));
    assert_eq!(
        args,
        vec![
            String::from("-p"),
            String::from("22"),
            String::from("-o"),
            String::from("ConnectTimeout=5"),
            String::from("deploy@example.com"),
            String::from("echo 'Connected'"),
        ]
    );
}

fn finished(code: i32, stdout: &str, stderr: &str) -> RunOutcome {
    RunOutcome { code: Some(code), stdout: String::from(stdout), stderr: String::from(stderr) }
}

#[test]
fn failed_directory_step_ends_the_deployment_with_the_remote_error() {
    let outcome = finished(1, "", "mkdir: permission denied");
    match deploy_after_mkdir(outcome) {
        DeployPhase::Done(Err(message)) => {
            assert_eq!(message, "Failed to create remote directory: mkdir: permission denied");
            assert!(message.contains("mkdir: permission denied"));
        }
        _ => panic!("a failed directory step must finish the deployment"),
    }
}

#[test]
fn successful_directory_step_moves_on_to_the_copy() {
    assert!(matches!(deploy_after_mkdir(finished(0, "", "")), DeployPhase::CopyFiles));
}

#[test]
fn finished_deployment_reports_where_the_scanner_lives() {
    let result = deploy_after_copy(&config(None, None), finished(0, "", "")).unwrap();
    assert!(result.success);
    assert_eq!(result.output, "Scout94 scanner deployed to example.com:/srv/app/scout94/");
    assert!(result.error.is_none());
}

#[test]
fn failed_copy_reports_the_remote_error() {
    let err =
        deploy_after_copy(&config(None, None), finished(1, "", "lost connection")).unwrap_err();
    assert_eq!(err, "Failed to deploy files: lost connection");
}

#[test]
fn remote_script_failure_is_a_failed_result_not_an_error() {
    let outcome = finished(2, "ran 3 checks", "assertion failed in test_install_db.php");
    let result = remote_run_result(outcome).expect("a remote failure is not a command error");
    assert!(!result.success);
    assert_eq!(result.output, "ran 3 checks");
    assert_eq!(result.error.as_deref(), Some("assertion failed in test_install_db.php"));
}

#[test]
fn silent_remote_failure_reports_no_error_text() {
    let result = remote_run_result(finished(2, "partial output", "")).unwrap();
    assert!(!result.success);
    assert_eq!(result.output, "partial output");
    assert!(result.error.is_none());
}

#[test]
fn remote_success_carries_its_output_only() {
    let result = remote_run_result(finished(0, "all green", "")).unwrap();
    assert!(result.success);
    assert_eq!(result.output, "all green");
    assert!(result.error.is_none());
}

#[test]
fn transport_failure_is_a_command_error() {
    let outcome = finished(255, "", "ssh: connect to host example.com port 22: timed out");
    let err = remote_run_result(outcome).unwrap_err();
    assert_eq!(
        err,
        "Failed to execute remote test: ssh: connect to host example.com port 22: timed out"
    );
}

#[test]
fn a_client_ended_by_a_signal_is_a_command_error() {
    let outcome =
        RunOutcome { code: None, stdout: String::new(), stderr: String::from("killed") };
    let err = remote_run_result(outcome).unwrap_err();
    assert_eq!(err, "Failed to execute remote test: killed");
}
