//! Remote execution: building the secure-shell and secure-copy invocations
//! that deploy the scanner and run tests on a remote host, and interpreting
//! what came back.
//!
//! Running the client processes stays with the caller; argument vectors are
//! built here exactly, and the observed outcomes come back here to be turned
//! into results. A remote command that ran and failed is a failed result;
//! only a transport failure — a client that could not run, or could not
//! reach the remote host — is a command error.

use vstd::prelude::*;
use vstd::string::StringExecFns;

use crate::digits::dec_str;
use crate::digits::u32_to_decimal;
use crate::runner::test_script_name;
use crate::text::concat2;
use crate::text::concat3;
use crate::text::str_views;

verus! {

/// A remote target: host, user, optional port (22 when absent), optional
/// private-key path, and the remote base directory.
#[derive(Debug)]
pub struct RemoteConfig {
    pub host: String,
    pub user: String,
    pub port: Option<u16>,
    pub key_path: Option<String>,
    pub remote_path: String,
}

/// Outcome of a remote scan or deployment, in the same uniform shape as
/// local runs.
#[derive(Debug)]
pub struct RemoteScanResult {
    pub success: bool,
    pub output: String,
    pub error: Option<String>,
}

/// What the caller observed of a finished client process: its exit code
/// (absent when the client was ended by a signal) and the decoded output
/// streams.
#[derive(Debug)]
pub struct RunOutcome {
    pub code: Option<i32>,
    pub stdout: String,
    pub stderr: String,
}

/// The exit code with which the secure-shell client reports a failure of
/// its own — it could not connect, authenticate or otherwise run — leaving
/// the codes below it to carry the remote command's exit status verbatim.
pub const TRANSPORT_FAILURE_CODE: i32 = 255;

/// The client exited reporting complete success.
pub open spec fn spec_ran(o: RunOutcome) -> bool {
    o.code == Some(0i32)
}

/// The client itself failed, rather than the remote command it carried: it
/// was ended by a signal, or it exited with the code it reserves for its
/// own errors.
pub open spec fn spec_transport_failed(o: RunOutcome) -> bool {
    match o.code {
        Some(c) => c == TRANSPORT_FAILURE_CODE,
        None => true,
    }
}

fn ran_ok(o: &RunOutcome) -> (r: bool)
    ensures
        r == spec_ran(*o),
{
    match o.code {
        Some(c) => c == 0,
        None => false,
    }
}

fn transport_failed(o: &RunOutcome) -> (r: bool)
    ensures
        r == spec_transport_failed(*o),
{
    match o.code {
        Some(c) => c == TRANSPORT_FAILURE_CODE,
        None => true,
    }
}

/// Where a deployment stands after its directory-creation step.
#[derive(Debug)]
pub enum DeployPhase {
    /// The remote directory exists; the copy step may run.
    CopyFiles,
    /// The deployment is over without the copy step ever being attempted.
    Done(Result<RemoteScanResult, String>),
}

/// The port a configuration connects to.
pub open spec fn spec_port(c: RemoteConfig) -> u16 {
    match c.port {
        Some(p) => p,
        None => 22,
    }
}

/// The `user@host` target string.
pub open spec fn spec_remote_host(c: RemoteConfig) -> Seq<char> {
    c.user@ + "@"@ + c.host@
}

/// The leading secure-shell client arguments: the port, then the identity
/// file when a key path is configured.
pub open spec fn spec_ssh_base(c: RemoteConfig) -> Seq<Seq<char>> {
    let base = seq!["-p"@, dec_str(spec_port(c) as nat)];
    match c.key_path {
        Some(k) => base + seq!["-i"@, k@],
        None => base,
    }
}

/// The remote command that creates the deployment directory.
pub open spec fn spec_mkdir_command(c: RemoteConfig) -> Seq<char> {
    "mkdir -p "@ + c.remote_path@ + "/scout94"@
}

/// The full argument vector of the directory-creation invocation.
pub open spec fn spec_mkdir_args(c: RemoteConfig) -> Seq<Seq<char>> {
    spec_ssh_base(c) + seq![spec_remote_host(c), spec_mkdir_command(c)]
}

/// The full argument vector of the secure-copy invocation that deploys the
/// local scanner directory.
pub open spec fn spec_scp_args(c: RemoteConfig, local_dir: Seq<char>) -> Seq<Seq<char>> {
    let base = seq!["-P"@, dec_str(spec_port(c) as nat), "-r"@];
    let keyed = match c.key_path {
        Some(k) => base + seq!["-i"@, k@],
        None => base,
    };
    keyed + seq![
        local_dir + "/*"@,
        spec_remote_host(c) + ":"@ + c.remote_path@ + "/scout94/"@,
    ]
}

/// The full argument vector that runs a test script remotely inside the
/// target project directory.
pub open spec fn spec_run_args(c: RemoteConfig, target: Seq<char>, script: Seq<char>) -> Seq<
    Seq<char>,
> {
    spec_ssh_base(c) + seq![
        spec_remote_host(c),
        "cd "@ + target + " && php "@ + c.remote_path@ + "/scout94/"@ + script,
    ]
}

/// The full argument vector of the reachability probe: a trivial remote
/// command under a short connection timeout.
pub open spec fn spec_check_args(c: RemoteConfig) -> Seq<Seq<char>> {
    let base = seq!["-p"@, dec_str(spec_port(c) as nat), "-o"@, "ConnectTimeout=5"@];
    let keyed = match c.key_path {
        Some(k) => base + seq!["-i"@, k@],
        None => base,
    };
    keyed + seq![spec_remote_host(c), "echo 'Connected'"@]
}

fn port_string(c: &RemoteConfig) -> (r: String)
    ensures
        r@ == dec_str(spec_port(*c) as nat),
{
    let p: u16 = match c.port {
        Some(p) => p,
        None => 22,
    };
    u32_to_decimal(p as u32)
}

/// The `user@host` target string.
pub fn remote_host_string(c: &RemoteConfig) -> (r: String)
    ensures
        r@ == spec_remote_host(*c),
{
    concat3(c.user.as_str(), "@", c.host.as_str())
}

fn push_key_args(c: &RemoteConfig, args: &mut Vec<String>)
    ensures
        str_views(final(args)@) == str_views(old(args)@) + (match c.key_path {
            Some(k) => seq!["-i"@, k@],
            None => Seq::<Seq<char>>::empty(),
        }),
{
    match &c.key_path {
        Some(k) => {
            args.push("-i".to_owned());
            args.push(k.clone());
            proof {
                assert(str_views(args@) =~= str_views(old(args)@) + seq!["-i"@, k@]);
            }
        },
        None => {
            proof {
                assert(str_views(args@) =~= str_views(args@) + Seq::<Seq<char>>::empty());
            }
        },
    }
}

/// The directory-creation invocation of a deployment.
pub fn deploy_mkdir_args(c: &RemoteConfig) -> (args: Vec<String>)
    ensures
        str_views(args@) == spec_mkdir_args(*c),
{
    let mut args: Vec<String> = Vec::new();
    args.push("-p".to_owned());
    args.push(port_string(c));
    proof {
        assert(str_views(args@) =~~= seq!["-p"@, dec_str(spec_port(*c) as nat)]);
    }
    push_key_args(c, &mut args);
    proof {
        assert(str_views(args@) =~~= spec_ssh_base(*c));
    }
    args.push(remote_host_string(c));
    args.push(concat3("mkdir -p ", c.remote_path.as_str(), "/scout94"));
    proof {
        assert(str_views(args@) =~~= spec_mkdir_args(*c));
    }
    args
}

/// The secure-copy invocation that deploys `local_dir`'s contents.
pub fn deploy_scp_args(c: &RemoteConfig, local_dir: &str) -> (args: Vec<String>)
    ensures
        str_views(args@) == spec_scp_args(*c, local_dir@),
{
    let mut args: Vec<String> = Vec::new();
    args.push("-P".to_owned());
    args.push(port_string(c));
    args.push("-r".to_owned());
    proof {
        assert(str_views(args@) =~~= seq!["-P"@, dec_str(spec_port(*c) as nat), "-r"@]);
    }
    push_key_args(c, &mut args);
    proof {
        assert(str_views(args@) =~~= (match c.key_path {
            Some(k) => seq!["-P"@, dec_str(spec_port(*c) as nat), "-r"@, "-i"@, k@],
            None => seq!["-P"@, dec_str(spec_port(*c) as nat), "-r"@],
        }));
    }
    args.push(concat2(local_dir, "/*"));
    let host = remote_host_string(c);
    let mut dest = host;
    dest.append(":");
    dest.append(c.remote_path.as_str());
    dest.append("/scout94/");
    args.push(dest);
    proof {
        assert(str_views(args@) =~~= spec_scp_args(*c, local_dir@));
    }
    args
}

/// The invocation that runs the selected test script remotely, mapped from
/// its symbolic selector.
pub fn run_remote_args(c: &RemoteConfig, selector: &str, target: &str) -> (args: Vec<String>)
    ensures
        str_views(args@) == spec_run_args(*c, target@, crate::runner::script_for(selector@)),
{
    let script = test_script_name(selector);
    let mut args: Vec<String> = Vec::new();
    args.push("-p".to_owned());
    args.push(port_string(c));
    proof {
        assert(str_views(args@) =~~= seq!["-p"@, dec_str(spec_port(*c) as nat)]);
    }
    push_key_args(c, &mut args);
    proof {
        assert(str_views(args@) =~~= spec_ssh_base(*c));
    }
    args.push(remote_host_string(c));
    let mut command = "cd ".to_owned();
    command.append(target);
    command.append(" && php ");
    command.append(c.remote_path.as_str());
    command.append("/scout94/");
    command.append(script);
    args.push(command);
    proof {
        assert(str_views(args@) =~~= spec_run_args(
            *c,
            target@,
            crate::runner::script_for(selector@),
        ));
    }
    args
}

/// The reachability-probe invocation.
pub fn check_access_args(c: &RemoteConfig) -> (args: Vec<String>)
    ensures
        str_views(args@) == spec_check_args(*c),
{
    let mut args: Vec<String> = Vec::new();
    args.push("-p".to_owned());
    args.push(port_string(c));
    args.push("-o".to_owned());
    args.push("ConnectTimeout=5".to_owned());
    proof {
        assert(str_views(args@) =~~= seq![
            "-p"@,
            dec_str(spec_port(*c) as nat),
            "-o"@,
            "ConnectTimeout=5"@,
        ]);
    }
    push_key_args(c, &mut args);
    proof {
        assert(str_views(args@) =~~= (match c.key_path {
            Some(k) => seq![
                "-p"@,
                dec_str(spec_port(*c) as nat),
                "-o"@,
                "ConnectTimeout=5"@,
                "-i"@,
                k@,
            ],
            None => seq!["-p"@, dec_str(spec_port(*c) as nat), "-o"@, "ConnectTimeout=5"@],
        }));
    }
    args.push(remote_host_string(c));
    args.push("echo 'Connected'".to_owned());
    proof {
        assert(str_views(args@) =~~= spec_check_args(*c));
    }
    args
}

/// The error reported when the directory step could not run or failed
/// remotely; `detail` carries the captured error text.
pub fn mkdir_failure_message(detail: &str) -> (r: String)
    ensures
        r@ == "Failed to create remote directory: "@ + detail@,
{
    concat2("Failed to create remote directory: ", detail)
}

/// The error reported when the copy step could not run or failed remotely.
pub fn copy_failure_message(detail: &str) -> (r: String)
    ensures
        r@ == "Failed to deploy files: "@ + detail@,
{
    concat2("Failed to deploy files: ", detail)
}

/// The error reported when the remote test could not be carried out at all:
/// the client process could not be created, or it failed in transport.
pub fn remote_spawn_failure_message(detail: &str) -> (r: String)
    ensures
        r@ == "Failed to execute remote test: "@ + detail@,
{
    concat2("Failed to execute remote test: ", detail)
}

/// What follows the directory step of a deployment: only a cleanly
/// successful client run lets the copy step run; any failure — remote or
/// transport — finishes the deployment at once, carrying the captured error
/// text, and the copy is never attempted.
pub fn deploy_after_mkdir(outcome: RunOutcome) -> (r: DeployPhase)
    ensures
        spec_ran(outcome) ==> r is CopyFiles,
        !spec_ran(outcome) ==> (r matches DeployPhase::Done(Err(m)) && m@
            == "Failed to create remote directory: "@ + outcome.stderr@),
{
    if ran_ok(&outcome) {
        DeployPhase::CopyFiles
    } else {
        DeployPhase::Done(Err(mkdir_failure_message(outcome.stderr.as_str())))
    }
}

/// What follows the copy step: a failed copy finishes with the captured
/// error text; a successful one reports where the scanner now lives.
pub fn deploy_after_copy(c: &RemoteConfig, outcome: RunOutcome) -> (r: Result<
    RemoteScanResult,
    String,
>)
    ensures
        !spec_ran(outcome) ==> (r matches Err(m) && m@ == "Failed to deploy files: "@
            + outcome.stderr@),
        spec_ran(outcome) ==> (r matches Ok(res) && res.success && res.error is None
            && res.output@ == "Scout94 scanner deployed to "@ + c.host@ + ":"@ + c.remote_path@
            + "/scout94/"@),
{
    if !ran_ok(&outcome) {
        Err(copy_failure_message(outcome.stderr.as_str()))
    } else {
        let mut output = "Scout94 scanner deployed to ".to_owned();
        output.append(c.host.as_str());
        output.append(":");
        output.append(c.remote_path.as_str());
        output.append("/scout94/");
        Ok(RemoteScanResult { success: true, output, error: None })
    }
}

/// Shapes a finished remote test run. A transport failure — the client
/// could not connect or otherwise failed itself — is a command error
/// carrying the client's error text. Otherwise success follows the remote
/// exit status: a remote script that ran and failed is a failed result,
/// never a command error, with the captured standard error reported only
/// when it said something.
pub fn remote_run_result(outcome: RunOutcome) -> (r: Result<RemoteScanResult, String>)
    ensures
        spec_transport_failed(outcome) ==> (r matches Err(m) && m@
            == "Failed to execute remote test: "@ + outcome.stderr@),
        !spec_transport_failed(outcome) ==> (r matches Ok(res) && {
            &&& res.success == spec_ran(outcome)
            &&& res.output == outcome.stdout
            &&& (spec_ran(outcome) ==> res.error is None)
            &&& (!spec_ran(outcome) && outcome.stderr@.len() == 0 ==> res.error is None)
            &&& (!spec_ran(outcome) && outcome.stderr@.len() > 0 ==> res.error == Some(
                outcome.stderr,
            ))
        }),
{
    if transport_failed(&outcome) {
        Err(remote_spawn_failure_message(outcome.stderr.as_str()))
    } else if ran_ok(&outcome) {
        Ok(RemoteScanResult { success: true, output: outcome.stdout, error: None })
    } else if outcome.stderr.as_str().is_empty() {
        Ok(RemoteScanResult { success: false, output: outcome.stdout, error: None })
    } else {
        Ok(RemoteScanResult { success: false, output: outcome.stdout, error: Some(
            outcome.stderr,
        ) })
    }
}

} // verus!
