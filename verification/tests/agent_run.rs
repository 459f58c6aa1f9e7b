use signalpane::agent_run::{
    install, restart, status, uninstall, AgentAction, AgentEvent, AgentOperation, AgentPhase,
    AgentRun,
};
use signalpane::config::AppPaths;
use signalpane::launch_agent::{CommandOutput, DaemonIpcStatus};

const PLIST: &str = "/Users/alice/Library/LaunchAgents/com.faronan.signalpane.plist";
const SOCKET: &str = "/tmp/state/signalpane.sock";

fn ok() -> CommandOutput {
    CommandOutput {
        success: true,
        code: Some(0),
        status_text: "exit status: 0".to_string(),
        stdout: Vec::new(),
        stderr: Vec::new(),
    }
}

fn not_found() -> CommandOutput {
    CommandOutput {
        success: false,
        code: Some(113),
        status_text: "exit status: 113".to_string(),
        stdout: Vec::new(),
        stderr: b"Could not find service \"com.faronan.signalpane\" in domain for user gui: 501"
            .to_vec(),
    }
}

fn failed(message: &str) -> CommandOutput {
    CommandOutput {
        success: false,
        code: Some(5),
        status_text: "exit status: 5".to_string(),
        stdout: Vec::new(),
        stderr: message.as_bytes().to_vec(),
    }
}

/// Runs an operation against scripted answers and returns the actions taken.
fn drive(operation: AgentOperation, mut answers: Vec<AgentEvent>) -> Vec<AgentAction> {
    let (mut run, mut action) = AgentRun::start(operation);
    let mut actions = vec![action.clone()];
    loop {
        match action {
            AgentAction::Report { .. } | AgentAction::Fail(_) => return actions,
            _ => {}
        }
        let event = answers.remove(0);
        let (next, next_action) = run.step(event, PLIST, SOCKET);
        run = next;
        action = next_action;
        actions.push(action.clone());
    }
}

#[test]
fn restart_bootouts_loaded_service_then_bootstraps_existing_plist() {
    let actions = drive(
        AgentOperation::Restart,
        vec![
            AgentEvent::PlistChecked { exists: true },
            AgentEvent::Printed(ok()),
            AgentEvent::Probed(DaemonIpcStatus::Responsive),
            AgentEvent::BootedOut(ok()),
            AgentEvent::Bootstrapped(ok()),
        ],
    );
    assert_eq!(
        actions,
        vec![
            AgentAction::CheckPlist,
            AgentAction::PrintService,
            AgentAction::ProbeIpc,
            AgentAction::Bootout,
            AgentAction::Bootstrap,
            AgentAction::Report { loaded: true },
        ]
    );
}

#[test]
fn restart_requires_existing_plist() {
    let actions = drive(AgentOperation::Restart, vec![AgentEvent::PlistChecked { exists: false }]);
    assert_eq!(
        actions.last(),
        Some(&AgentAction::Fail(format!(
            "LaunchAgent plist does not exist at {PLIST}; run `signalpane launch-agent install` first"
        )))
    );
}

#[test]
fn uninstall_does_not_remove_plist_when_bootout_fails() {
    let actions = drive(
        AgentOperation::Uninstall,
        vec![AgentEvent::Printed(ok()), AgentEvent::BootedOut(failed("Operation not permitted"))],
    );
    assert_eq!(
        actions,
        vec![
            AgentAction::PrintService,
            AgentAction::Bootout,
            AgentAction::Fail("launchctl bootout failed: Operation not permitted".to_string()),
        ]
    );
    assert!(!actions.contains(&AgentAction::RemovePlist));
}

#[test]
fn uninstall_of_unloaded_service_removes_plist() {
    let actions = drive(
        AgentOperation::Uninstall,
        vec![AgentEvent::Printed(not_found()), AgentEvent::PlistRemoved],
    );
    assert_eq!(
        actions,
        vec![
            AgentAction::PrintService,
            AgentAction::RemovePlist,
            AgentAction::Report { loaded: false },
        ]
    );
}

#[test]
fn install_writes_plist_before_bootstrap() {
    let actions = drive(
        AgentOperation::Install,
        vec![
            AgentEvent::Printed(not_found()),
            AgentEvent::Probed(DaemonIpcStatus::Unreachable),
            AgentEvent::PlistWritten,
            AgentEvent::Bootstrapped(ok()),
        ],
    );
    assert_eq!(
        actions,
        vec![
            AgentAction::PrintService,
            AgentAction::ProbeIpc,
            AgentAction::WritePlist,
            AgentAction::Bootstrap,
            AgentAction::Report { loaded: true },
        ]
    );
}

#[test]
fn foreground_daemon_blocks_install() {
    let actions = drive(
        AgentOperation::Install,
        vec![AgentEvent::Printed(not_found()), AgentEvent::Probed(DaemonIpcStatus::Responsive)],
    );
    assert_eq!(
        actions.last(),
        Some(&AgentAction::Fail(format!(
            "foreground daemon appears to be running at {SOCKET}; stop it before launch-agent install or restart"
        )))
    );
}

#[test]
fn failed_print_and_bootstrap_stop_the_run() {
    let actions = drive(AgentOperation::Install, vec![AgentEvent::Printed(failed("boom"))]);
    assert_eq!(
        actions.last(),
        Some(&AgentAction::Fail("launchctl print failed: boom".to_string()))
    );
    let actions = drive(
        AgentOperation::Restart,
        vec![
            AgentEvent::PlistChecked { exists: true },
            AgentEvent::Printed(not_found()),
            AgentEvent::Probed(DaemonIpcStatus::Unreachable),
            AgentEvent::Bootstrapped(failed("")),
        ],
    );
    assert_eq!(
        actions.last(),
        Some(&AgentAction::Fail("launchctl bootstrap failed with status exit status: 5".to_string()))
    );
}

#[test]
fn runs_end_in_done_phase() {
    let (run, _) = AgentRun::start(AgentOperation::Uninstall);
    let (run, _) = run.step(AgentEvent::Printed(not_found()), PLIST, SOCKET);
    assert_eq!(run.phase, AgentPhase::RemovingPlist);
    let (run, _) = run.step(AgentEvent::PlistRemoved, PLIST, SOCKET);
    assert_eq!(run.phase, AgentPhase::Done);
}

#[test]
fn launch_agent_commands_need_launchd() {
    let paths = AppPaths::from_bases("/tmp/cfg".to_string(), "/tmp/state".to_string());
    let message = "signalpane launch-agent is macOS only".to_string();
    assert_eq!(install(&paths), Err(message.clone()));
    assert_eq!(uninstall(&paths), Err(message.clone()));
    assert_eq!(status(&paths), Err(message.clone()));
    assert_eq!(restart(&paths), Err(message));
}
