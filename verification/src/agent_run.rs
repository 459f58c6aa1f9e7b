//! The order of work in `launch-agent install`, `uninstall` and `restart`:
//! each step takes what the last piece of outside work reported and says what
//! to do next. The caller runs `launchctl`, touches the plist, probes the
//! socket, and hands back the result.
use vstd::prelude::*;

use crate::config::AppPaths;
use crate::launch_agent::{
    ensure_bootout_success, ensure_no_foreground_socket_conflict, ensure_success, failure_message,
    foreground_conflict_message, print_output_loaded, service_not_found, socket_conflict,
    CommandOutput, DaemonIpcStatus, LaunchAgentStatus,
};
use crate::text::{owned, push_str};

verus! {

/// The launch agent commands that change launchd's state.
#[derive(Debug, Clone, Copy, PartialEq, Eq, Structural)]
pub enum AgentOperation {
    Install,
    Uninstall,
    Restart,
}

/// What a run waits for.
#[derive(Debug, Clone, Copy, PartialEq, Eq, Structural)]
pub enum AgentPhase {
    /// Whether the plist exists (restart).
    CheckingPlist,
    /// The output of `launchctl print`.
    Printing,
    /// Whether the daemon answers on its socket (install, restart).
    Probing,
    /// The plist has been written (install).
    WritingPlist,
    /// The output of `launchctl bootout`.
    BootingOut,
    /// The output of `launchctl bootstrap`.
    Bootstrapping,
    /// The plist has been removed (uninstall).
    RemovingPlist,
    /// Nothing: the run is over.
    Done,
}

/// A run of one operation: where it stands, and whether `launchctl print`
/// found the service loaded.
#[derive(Debug, Clone, Copy, PartialEq, Eq, Structural)]
pub struct AgentRun {
    pub operation: AgentOperation,
    pub phase: AgentPhase,
    pub loaded: bool,
}

/// What the outside work reported.
#[derive(Debug, Clone, PartialEq, Eq)]
pub enum AgentEvent {
    PlistChecked { exists: bool },
    Printed(CommandOutput),
    Probed(DaemonIpcStatus),
    PlistWritten,
    BootedOut(CommandOutput),
    Bootstrapped(CommandOutput),
    PlistRemoved,
}

/// What to do next.
#[derive(Debug, Clone, PartialEq, Eq)]
pub enum AgentAction {
    CheckPlist,
    PrintService,
    ProbeIpc,
    WritePlist,
    Bootout,
    Bootstrap,
    RemovePlist,
    /// Report the status, with the service loaded or not.
    Report { loaded: bool },
    /// Stop with this error.
    Fail(String),
}

/// The mathematical value of an [`AgentAction`].
pub enum ActionView {
    CheckPlist,
    PrintService,
    ProbeIpc,
    WritePlist,
    Bootout,
    Bootstrap,
    RemovePlist,
    Report { loaded: bool },
    Fail(Seq<char>),
}

impl View for AgentAction {
    type V = ActionView;

    open spec fn view(&self) -> ActionView {
        match self {
            AgentAction::CheckPlist => ActionView::CheckPlist,
            AgentAction::PrintService => ActionView::PrintService,
            AgentAction::ProbeIpc => ActionView::ProbeIpc,
            AgentAction::WritePlist => ActionView::WritePlist,
            AgentAction::Bootout => ActionView::Bootout,
            AgentAction::Bootstrap => ActionView::Bootstrap,
            AgentAction::RemovePlist => ActionView::RemovePlist,
            AgentAction::Report { loaded } => ActionView::Report { loaded: *loaded },
            AgentAction::Fail(e) => ActionView::Fail(e@),
        }
    }
}

/// The event that a phase waits for.
pub open spec fn awaits(phase: AgentPhase, event: AgentEvent) -> bool {
    match phase {
        AgentPhase::CheckingPlist => event is PlistChecked,
        AgentPhase::Printing => event is Printed,
        AgentPhase::Probing => event is Probed,
        AgentPhase::WritingPlist => event is PlistWritten,
        AgentPhase::BootingOut => event is BootedOut,
        AgentPhase::Bootstrapping => event is Bootstrapped,
        AgentPhase::RemovingPlist => event is PlistRemoved,
        AgentPhase::Done => false,
    }
}

/// The phases that each operation goes through: only restart checks the
/// plist, only install writes it, only uninstall removes it, and uninstall does
/// not probe the socket.
pub open spec fn consistent(run: AgentRun) -> bool {
    &&& run.phase == AgentPhase::CheckingPlist ==> run.operation == AgentOperation::Restart
    &&& run.phase == AgentPhase::WritingPlist ==> run.operation == AgentOperation::Install
    &&& run.phase == AgentPhase::RemovingPlist ==> run.operation == AgentOperation::Uninstall
    &&& run.phase == AgentPhase::Probing ==> run.operation != AgentOperation::Uninstall
    &&& run.phase == AgentPhase::Bootstrapping ==> run.operation != AgentOperation::Uninstall
}

/// The error of a restart without a plist.
pub open spec fn missing_plist_message(plist: Seq<char>) -> Seq<char> {
    "LaunchAgent plist does not exist at "@ + plist
        + "; run `signalpane launch-agent install` first"@
}

/// A run at `phase`, with what `print` found.
pub open spec fn at(run: AgentRun, phase: AgentPhase) -> AgentRun {
    AgentRun { operation: run.operation, phase, loaded: run.loaded }
}

/// A finished run.
pub open spec fn done(run: AgentRun) -> AgentRun {
    at(run, AgentPhase::Done)
}

/// The step after a bootout that went well, or after a not-loaded print on
/// uninstall: remove the plist (uninstall) or bootstrap (install, restart).
pub open spec fn after_bootout(run: AgentRun) -> (AgentRun, ActionView) {
    if run.operation == AgentOperation::Uninstall {
        (at(run, AgentPhase::RemovingPlist), ActionView::RemovePlist)
    } else {
        (at(run, AgentPhase::Bootstrapping), ActionView::Bootstrap)
    }
}

/// Boot a loaded service out first; else go on as after a bootout.
pub open spec fn bootout_if_loaded(run: AgentRun) -> (AgentRun, ActionView) {
    if run.loaded {
        (at(run, AgentPhase::BootingOut), ActionView::Bootout)
    } else {
        after_bootout(run)
    }
}

/// The first step of an operation.
pub open spec fn start_spec(operation: AgentOperation) -> (AgentRun, ActionView) {
    if operation == AgentOperation::Restart {
        (
            AgentRun { operation, phase: AgentPhase::CheckingPlist, loaded: false },
            ActionView::CheckPlist,
        )
    } else {
        (AgentRun { operation, phase: AgentPhase::Printing, loaded: false }, ActionView::PrintService)
    }
}

/// Whether `print` found the service loaded, where its output is understood.
pub open spec fn print_loaded(out: CommandOutput) -> Option<bool> {
    if out.success {
        Some(true)
    } else if service_not_found(out) {
        Some(false)
    } else {
        None
    }
}

/// The step after `event`, for a run at a phase that awaits it; `plist` and
/// `socket` are the paths that errors name.
pub open spec fn step_spec(
    run: AgentRun,
    event: AgentEvent,
    plist: Seq<char>,
    socket: Seq<char>,
) -> (AgentRun, ActionView) {
    match event {
        AgentEvent::PlistChecked { exists } => if exists {
            (at(run, AgentPhase::Printing), ActionView::PrintService)
        } else {
            (done(run), ActionView::Fail(missing_plist_message(plist)))
        },
        AgentEvent::Printed(out) => match print_loaded(out) {
            None => (done(run), ActionView::Fail(failure_message(out, "launchctl print"@))),
            Some(loaded) => {
                let seen = AgentRun { operation: run.operation, phase: run.phase, loaded };
                if run.operation == AgentOperation::Uninstall {
                    bootout_if_loaded(seen)
                } else {
                    (at(seen, AgentPhase::Probing), ActionView::ProbeIpc)
                }
            },
        },
        AgentEvent::Probed(ipc) => if socket_conflict(run.loaded, ipc) {
            (done(run), ActionView::Fail(foreground_conflict_message(socket)))
        } else if run.operation == AgentOperation::Install {
            (at(run, AgentPhase::WritingPlist), ActionView::WritePlist)
        } else {
            bootout_if_loaded(run)
        },
        AgentEvent::PlistWritten => bootout_if_loaded(run),
        AgentEvent::BootedOut(out) => if out.success || service_not_found(out) {
            after_bootout(run)
        } else {
            (done(run), ActionView::Fail(failure_message(out, "launchctl bootout"@)))
        },
        AgentEvent::Bootstrapped(out) => if out.success {
            (done(run), ActionView::Report { loaded: true })
        } else {
            (done(run), ActionView::Fail(failure_message(out, "launchctl bootstrap"@)))
        },
        AgentEvent::PlistRemoved => (done(run), ActionView::Report { loaded: false }),
    }
}

impl AgentRun {
    /// Starts an operation: a restart first checks for the plist; install and
    /// uninstall first ask launchd whether the service is loaded.
    pub fn start(operation: AgentOperation) -> (r: (AgentRun, AgentAction))
        ensures
            (r.0, r.1@) == start_spec(operation),
            consistent(r.0),
    {
        match operation {
            AgentOperation::Restart => (
                AgentRun { operation, phase: AgentPhase::CheckingPlist, loaded: false },
                AgentAction::CheckPlist,
            ),
            _ => (
                AgentRun { operation, phase: AgentPhase::Printing, loaded: false },
                AgentAction::PrintService,
            ),
        }
    }

    fn moved(self, phase: AgentPhase) -> (r: AgentRun)
        ensures
            r == at(self, phase),
    {
        AgentRun { operation: self.operation, phase, loaded: self.loaded }
    }

    fn after_bootout(self) -> (r: (AgentRun, AgentAction))
        ensures
            (r.0, r.1@) == after_bootout(self),
    {
        if self.operation == AgentOperation::Uninstall {
            (self.moved(AgentPhase::RemovingPlist), AgentAction::RemovePlist)
        } else {
            (self.moved(AgentPhase::Bootstrapping), AgentAction::Bootstrap)
        }
    }

    fn bootout_if_loaded(self) -> (r: (AgentRun, AgentAction))
        ensures
            (r.0, r.1@) == bootout_if_loaded(self),
    {
        if self.loaded {
            (self.moved(AgentPhase::BootingOut), AgentAction::Bootout)
        } else {
            self.after_bootout()
        }
    }

    /// The next step, given what the outside work that this run waits for
    /// reported. `plist_path` and `socket_path` are named in errors.
    pub fn step(self, event: AgentEvent, plist_path: &str, socket_path: &str) -> (r: (
        AgentRun,
        AgentAction,
    ))
        requires
            awaits(self.phase, event),
        ensures
            (r.0, r.1@) == step_spec(self, event, plist_path@, socket_path@),
            consistent(self) ==> consistent(r.0),
    {
        let finished = self.moved(AgentPhase::Done);
        match event {
            AgentEvent::PlistChecked { exists } => {
                if exists {
                    (self.moved(AgentPhase::Printing), AgentAction::PrintService)
                } else {
                    let mut e = owned("LaunchAgent plist does not exist at ");
                    push_str(&mut e, plist_path);
                    push_str(&mut e, "; run `signalpane launch-agent install` first");
                    (finished, AgentAction::Fail(e))
                }
            },
            AgentEvent::Printed(out) => {
                let ghost o = out;
                match print_output_loaded(out) {
                    Err(e) => (finished, AgentAction::Fail(e)),
                    Ok(loaded) => {
                        assert(print_loaded(o) == Some(loaded));
                        let seen = AgentRun { operation: self.operation, phase: self.phase, loaded };
                        if self.operation == AgentOperation::Uninstall {
                            seen.bootout_if_loaded()
                        } else {
                            (seen.moved(AgentPhase::Probing), AgentAction::ProbeIpc)
                        }
                    },
                }
            },
            AgentEvent::Probed(ipc) => {
                match ensure_no_foreground_socket_conflict(self.loaded, ipc, socket_path) {
                    Err(e) => (finished, AgentAction::Fail(e)),
                    Ok(()) => {
                        if self.operation == AgentOperation::Install {
                            (self.moved(AgentPhase::WritingPlist), AgentAction::WritePlist)
                        } else {
                            self.bootout_if_loaded()
                        }
                    },
                }
            },
            AgentEvent::PlistWritten => self.bootout_if_loaded(),
            AgentEvent::BootedOut(out) => {
                match ensure_bootout_success(out) {
                    Err(e) => (finished, AgentAction::Fail(e)),
                    Ok(()) => self.after_bootout(),
                }
            },
            AgentEvent::Bootstrapped(out) => {
                match ensure_success(out, "launchctl bootstrap") {
                    Err(e) => (finished, AgentAction::Fail(e)),
                    Ok(_) => (finished, AgentAction::Report { loaded: true }),
                }
            },
            AgentEvent::PlistRemoved => (finished, AgentAction::Report { loaded: false }),
        }
    }
}

/// An uninstall whose bootout fails stops there: the plist is not removed.
pub proof fn lemma_uninstall_keeps_plist_when_bootout_fails(
    run: AgentRun,
    out: CommandOutput,
    plist: Seq<char>,
    socket: Seq<char>,
)
    requires
        run.operation == AgentOperation::Uninstall,
        !out.success,
        !service_not_found(out),
    ensures
        step_spec(run, AgentEvent::BootedOut(out), plist, socket).1 == ActionView::Fail(
            failure_message(out, "launchctl bootout"@),
        ),
        step_spec(run, AgentEvent::BootedOut(out), plist, socket).0.phase == AgentPhase::Done,
{
}

/// A restart without a plist fails before it asks launchd anything.
pub proof fn lemma_restart_requires_plist(plist: Seq<char>, socket: Seq<char>)
    ensures
        start_spec(AgentOperation::Restart).1 == ActionView::CheckPlist,
        step_spec(
            start_spec(AgentOperation::Restart).0,
            AgentEvent::PlistChecked { exists: false },
            plist,
            socket,
        ).1 == ActionView::Fail(missing_plist_message(plist)),
{
}

/// A step only bootstraps a service that is not loaded, or right after its
/// bootout went well; it only removes the plist when `print` found the service
/// unloaded or right after its bootout went well.
pub proof fn lemma_bootstrap_and_remove_follow_bootout(
    run: AgentRun,
    event: AgentEvent,
    plist: Seq<char>,
    socket: Seq<char>,
)
    requires
        consistent(run),
        awaits(run.phase, event),
    ensures
        step_spec(run, event, plist, socket).1 == ActionView::Bootstrap ==> (!run.loaded
            || event is BootedOut),
        step_spec(run, event, plist, socket).1 == ActionView::RemovePlist ==> (event is BootedOut
            || (event matches AgentEvent::Printed(out) && print_loaded(out) == Some(false))),
{
}

/// A foreground daemon on the socket stops install and restart before the
/// plist or launchd is touched.
pub proof fn lemma_conflict_stops_before_changes(
    run: AgentRun,
    ipc: DaemonIpcStatus,
    plist: Seq<char>,
    socket: Seq<char>,
)
    requires
        socket_conflict(run.loaded, ipc),
    ensures
        step_spec(run, AgentEvent::Probed(ipc), plist, socket).1 == ActionView::Fail(
            foreground_conflict_message(socket),
        ),
{
}

/// Uninstall removes the plist once the service is gone from launchd: right
/// after a bootout that went well (or found no service), and right after a
/// `print` that found the service not loaded. It never bootstraps, and it
/// only reports success right after the plist was removed.
pub proof fn lemma_uninstall_removes_plist(
    run: AgentRun,
    event: AgentEvent,
    plist: Seq<char>,
    socket: Seq<char>,
)
    requires
        run.operation == AgentOperation::Uninstall,
        consistent(run),
        awaits(run.phase, event),
    ensures
        (event matches AgentEvent::BootedOut(out) && (out.success || service_not_found(out)))
            ==> step_spec(run, event, plist, socket).1 == ActionView::RemovePlist && step_spec(
            run,
            event,
            plist,
            socket,
        ).0.phase == AgentPhase::RemovingPlist,
        (event matches AgentEvent::Printed(out) && !out.success && service_not_found(out))
            ==> step_spec(run, event, plist, socket).1 == ActionView::RemovePlist,
        (event matches AgentEvent::Printed(out) && out.success) ==> step_spec(
            run,
            event,
            plist,
            socket,
        ).1 == ActionView::Bootout,
        step_spec(run, event, plist, socket).1 is Report ==> event is PlistRemoved,
        event is PlistRemoved ==> step_spec(run, event, plist, socket).1 == (ActionView::Report {
            loaded: false,
        }),
        step_spec(run, event, plist, socket).1 != ActionView::Bootstrap,
        step_spec(run, event, plist, socket).0.operation == AgentOperation::Uninstall,
{
}

/// Install writes the plist once the socket is free of a foreground daemon,
/// boots a loaded service out after that, and bootstraps only after the plist
/// is written; it never removes the plist. Restart never writes it.
pub proof fn lemma_install_writes_plist_first(
    run: AgentRun,
    event: AgentEvent,
    plist: Seq<char>,
    socket: Seq<char>,
)
    requires
        consistent(run),
        awaits(run.phase, event),
    ensures
        (event matches AgentEvent::Probed(ipc) && run.operation == AgentOperation::Install && (
        run.loaded || ipc != DaemonIpcStatus::Responsive)) ==> step_spec(run, event, plist, socket).1
            == ActionView::WritePlist,
        (run.operation == AgentOperation::Install && event is PlistWritten) ==> step_spec(
            run,
            event,
            plist,
            socket,
        ).1 == (if run.loaded {
            ActionView::Bootout
        } else {
            ActionView::Bootstrap
        }),
        (run.operation == AgentOperation::Install && step_spec(run, event, plist, socket).1
            == ActionView::Bootstrap) ==> (event is PlistWritten || event is BootedOut),
        run.operation != AgentOperation::Uninstall ==> step_spec(run, event, plist, socket).1
            != ActionView::RemovePlist,
        run.operation != AgentOperation::Install ==> step_spec(run, event, plist, socket).1
            != ActionView::WritePlist,
{
}

/// The error of the launch agent commands where launchd is not available.
pub open spec fn macos_only_message() -> Seq<char> {
    "signalpane launch-agent is macOS only"@
}

fn macos_only() -> (r: Result<LaunchAgentStatus, String>)
    ensures
        r is Err && r->Err_0@ == macos_only_message(),
{
    Err(owned("signalpane launch-agent is macOS only"))
}

/// `launch-agent install` where launchd is not available: an error.
pub fn install(paths: &AppPaths) -> (r: Result<LaunchAgentStatus, String>)
    ensures
        r is Err && r->Err_0@ == macos_only_message(),
{
    macos_only()
}

/// `launch-agent uninstall` where launchd is not available: an error.
pub fn uninstall(paths: &AppPaths) -> (r: Result<LaunchAgentStatus, String>)
    ensures
        r is Err && r->Err_0@ == macos_only_message(),
{
    macos_only()
}

/// `launch-agent status` where launchd is not available: an error.
pub fn status(paths: &AppPaths) -> (r: Result<LaunchAgentStatus, String>)
    ensures
        r is Err && r->Err_0@ == macos_only_message(),
{
    macos_only()
}

/// `launch-agent restart` where launchd is not available: an error.
pub fn restart(paths: &AppPaths) -> (r: Result<LaunchAgentStatus, String>)
    ensures
        r is Err && r->Err_0@ == macos_only_message(),
{
    macos_only()
}

} // verus!
