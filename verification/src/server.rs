//! The lifecycle of the managed server process as a state machine.
//!
//! The program around the library spawns the Java process, pipes its
//! output and waits for it to exit; every decision about the lifecycle
//! (may it start, what a stop request does, what happens after an exit,
//! when auto-restart gives up) is taken here.
use vstd::prelude::*;
use crate::config::{AppConfig, CrashAction};
use crate::text::{chars_of, contains, contains_seq};

verus! {

#[derive(Debug, Clone, Copy, PartialEq, Eq, Structural)]
pub enum ServerStatus {
    Stopped,
    Starting,
    Running,
    Stopping,
    Crashed,
}

/// How a running server is asked to go down.
#[derive(Debug, Clone, Copy, PartialEq, Eq, Structural)]
pub enum KillSig {
    /// Graceful: send `stop` on stdin, kill after a grace period.
    Stop,
    /// Kill the process at once.
    Kill,
}

/// What happens after the server process has exited.
#[derive(Debug, Clone, Copy, PartialEq, Eq, Structural)]
pub enum ExitPlan {
    /// Nothing further.
    NoRestart,
    /// Start again after `secs` seconds; this is restart number `attempt`.
    RestartAfter { secs: u64, attempt: u32 },
    /// The crash was one too many: `max` restarts have already been made.
    LimitReached { max: u32 },
}

#[derive(Debug, Clone, Copy, PartialEq, Eq, Structural)]
pub enum ServerError {
    AlreadyRunning,
    NotRunning,
}

impl ServerError {
    pub fn message(&self) -> (m: String)
        ensures
            *self == ServerError::AlreadyRunning ==> m@ == "server already running"@,
            *self == ServerError::NotRunning ==> m@ == "server not running"@,
    {
        match self {
            ServerError::AlreadyRunning => String::from_str("server already running"),
            ServerError::NotRunning => String::from_str("server not running"),
        }
    }
}

/// The externally visible facts about the server process.
#[derive(Debug, Clone, Copy, PartialEq, Eq, Structural)]
pub struct ServerInfo {
    pub status: ServerStatus,
    pub pid: Option<u32>,
    /// Microseconds since the Unix epoch.
    pub started_at: Option<i64>,
    pub restart_count: u32,
}

/// The whole lifecycle state.
#[derive(Debug, Clone, Copy, PartialEq, Eq, Structural)]
pub struct ServerState {
    pub status: ServerStatus,
    /// The process is attached: its stdin and kill channels exist.
    pub attached: bool,
    /// The start-up watcher still looks for the "Done" line.
    pub watching: bool,
    pub pid: Option<u32>,
    pub started_at: Option<i64>,
    pub restart_count: u32,
}

/// The start-up watcher's test for the line that says the server is ready.
pub open spec fn is_ready_line_spec(line: Seq<char>) -> bool {
    contains_seq(line, "Done ("@) && contains_seq(line, "For help, type"@)
}

/// Seconds to wait before restart number `count`.
pub open spec fn backoff_secs_spec(action: CrashAction, count: u32) -> u64 {
    if action == CrashAction::RestartWithBackoff {
        if 5 * count <= 60 { (5 * count) as u64 } else { 60 }
    } else {
        2
    }
}

impl ServerState {
    pub open spec fn inv(self) -> bool {
        self.pid is Some ==> self.attached
    }

    pub open spec fn info(self) -> ServerInfo {
        ServerInfo {
            status: self.status,
            pid: self.pid,
            started_at: self.started_at,
            restart_count: self.restart_count,
        }
    }

    pub open spec fn initial() -> ServerState {
        ServerState {
            status: ServerStatus::Stopped,
            attached: false,
            watching: false,
            pid: None,
            started_at: None,
            restart_count: 0,
        }
    }

    pub open spec fn may_start(self) -> bool {
        self.status == ServerStatus::Stopped || self.status == ServerStatus::Crashed
    }

    /// The process has been spawned with `pid` at time `now`.
    pub open spec fn spawned(self, pid: Option<u32>, now: i64) -> ServerState {
        ServerState {
            status: ServerStatus::Starting,
            attached: true,
            watching: true,
            pid,
            started_at: Some(now),
            restart_count: self.restart_count,
        }
    }

    /// A stop request: the new state and the signal to deliver.
    pub open spec fn stopped_by(self, force: bool) -> (ServerState, Result<KillSig, ServerError>) {
        if self.attached {
            (
                ServerState { status: ServerStatus::Stopping, ..self },
                Ok(if force { KillSig::Kill } else { KillSig::Stop }),
            )
        } else {
            (self, Err(ServerError::NotRunning))
        }
    }

    /// The start-up watcher sees a console line.
    pub open spec fn observed(self, line: Seq<char>) -> ServerState {
        if !self.watching {
            self
        } else if is_ready_line_spec(line) {
            ServerState { status: ServerStatus::Running, watching: false, ..self }
        } else if self.status == ServerStatus::Stopping || self.status == ServerStatus::Stopped
            || self.status == ServerStatus::Crashed {
            ServerState { watching: false, ..self }
        } else {
            self
        }
    }

    /// The exit of this exit is treated as a crash.
    pub open spec fn exit_is_crash(self, exit_ok: bool) -> bool {
        !exit_ok && self.status != ServerStatus::Stopping
    }

    /// The process exited, successfully or not: the new state and what follows.
    pub open spec fn exited(self, exit_ok: bool, action: CrashAction, max: u32) -> (ServerState, ExitPlan) {
        let crash = self.exit_is_crash(exit_ok);
        let detached = ServerState {
            status: if crash { ServerStatus::Crashed } else { ServerStatus::Stopped },
            attached: false,
            pid: None,
            ..self
        };
        if !crash {
            (ServerState { restart_count: 0, ..detached }, ExitPlan::NoRestart)
        } else if action == CrashAction::Stop {
            (detached, ExitPlan::NoRestart)
        } else {
            let count = (self.restart_count + 1) as u32;
            let next = ServerState { restart_count: count, ..detached };
            if count <= max {
                (next, ExitPlan::RestartAfter { secs: backoff_secs_spec(action, count), attempt: count })
            } else {
                (next, ExitPlan::LimitReached { max })
            }
        }
    }

    /// An exit in this state would need the restart counter to grow.
    pub open spec fn exit_counts_restart(self, exit_ok: bool, action: CrashAction) -> bool {
        self.exit_is_crash(exit_ok) && action != CrashAction::Stop
    }
}

/// The managed server process.
#[derive(Debug)]
pub struct ServerProc {
    state: ServerState,
}

impl View for ServerProc {
    type V = ServerState;

    closed spec fn view(&self) -> ServerState {
        self.state
    }
}

/// Seconds to wait before restart number `count` under `action`:
/// five seconds per attempt capped at a minute with backoff, else two.
pub fn backoff_secs(action: CrashAction, count: u32) -> (secs: u64)
    ensures
        secs == backoff_secs_spec(action, count),
{
    match action {
        CrashAction::RestartWithBackoff => {
            let s: u64 = 5 * (count as u64);
            if s <= 60 { s } else { 60 }
        },
        _ => 2,
    }
}

/// Is this console line the one that says the server has finished starting?
pub fn is_ready_line(line: &str) -> (b: bool)
    ensures
        b == is_ready_line_spec(line@),
{
    let cs = chars_of(line);
    let done = chars_of("Done (");
    let help = chars_of("For help, type");
    contains(cs.as_slice(), done.as_slice()) && contains(cs.as_slice(), help.as_slice())
}

/// Region files may be edited only while the server is down.
pub fn allows_region_edit(status: ServerStatus) -> (b: bool)
    ensures
        b == (status == ServerStatus::Stopped || status == ServerStatus::Crashed),
{
    match status {
        ServerStatus::Stopped | ServerStatus::Crashed => true,
        _ => false,
    }
}

impl ServerProc {
    pub fn new() -> (s: ServerProc)
        ensures
            s@ == ServerState::initial(),
    {
        ServerProc {
            state: ServerState {
                status: ServerStatus::Stopped,
                attached: false,
                watching: false,
                pid: None,
                started_at: None,
                restart_count: 0,
            },
        }
    }

    pub fn info(&self) -> (i: ServerInfo)
        ensures
            i == self@.info(),
    {
        ServerInfo {
            status: self.state.status,
            pid: self.state.pid,
            started_at: self.state.started_at,
            restart_count: self.state.restart_count,
        }
    }

    pub fn status(&self) -> (s: ServerStatus)
        ensures
            s == self@.status,
    {
        self.state.status
    }

    /// A start is refused unless the server is stopped or crashed.
    pub fn can_start(&self) -> (r: Result<(), ServerError>)
        ensures
            r is Ok <==> self@.may_start(),
            r is Err ==> r == Err::<(), ServerError>(ServerError::AlreadyRunning),
    {
        if self.state.status == ServerStatus::Stopped || self.state.status == ServerStatus::Crashed {
            Ok(())
        } else {
            Err(ServerError::AlreadyRunning)
        }
    }

    /// Record that the process was spawned with `pid` at time `now`.
    pub fn on_spawned_at(&mut self, pid: Option<u32>, now: i64)
        ensures
            final(self)@ == old(self)@.spawned(pid, now),
    {
        self.state = ServerState {
            status: ServerStatus::Starting,
            attached: true,
            watching: true,
            pid,
            started_at: Some(now),
            restart_count: self.state.restart_count,
        };
    }

    /// Record that the process was spawned with `pid`, stamped with the current time.
    pub fn on_spawned(&mut self, pid: Option<u32>)
        ensures
            exists|now: i64| final(self)@ == old(self)@.spawned(pid, now),
    {
        let now = crate::clock::now_micros();
        self.on_spawned_at(pid, now);
    }

    /// The line to write on the server's stdin for a console command.
    pub fn send_command(&self, cmd: &str) -> (r: Result<String, ServerError>)
        ensures
            self@.attached ==> (r matches Ok(line) && line@ == cmd@.push('\n')),
            !self@.attached ==> r == Err::<String, ServerError>(ServerError::NotRunning),
    {
        if self.state.attached {
            let mut cs = chars_of(cmd);
            cs.push('\n');
            Ok(crate::text::string_of(cs.as_slice()))
        } else {
            Err(ServerError::NotRunning)
        }
    }

    /// A stop request, graceful or forced.
    pub fn stop(&mut self, force: bool) -> (r: Result<KillSig, ServerError>)
        ensures
            (final(self)@, r) == old(self)@.stopped_by(force),
    {
        if self.state.attached {
            self.state.status = ServerStatus::Stopping;
            Ok(if force { KillSig::Kill } else { KillSig::Stop })
        } else {
            Err(ServerError::NotRunning)
        }
    }

    /// The start-up watcher sees a console line.
    pub fn observe_line(&mut self, line: &str)
        ensures
            final(self)@ == old(self)@.observed(line@),
    {
        if !self.state.watching {
            return;
        }
        if is_ready_line(line) {
            self.state.status = ServerStatus::Running;
            self.state.watching = false;
        } else if self.state.status == ServerStatus::Stopping || self.state.status == ServerStatus::Stopped
            || self.state.status == ServerStatus::Crashed {
            self.state.watching = false;
        }
    }

    /// The process exited; `exit_ok` tells whether it reported success.
    pub fn on_exit(&mut self, exit_ok: bool, action: CrashAction, max: u32) -> (plan: ExitPlan)
        requires
            old(self)@.exit_counts_restart(exit_ok, action) ==> old(self)@.restart_count < u32::MAX,
        ensures
            (final(self)@, plan) == old(self)@.exited(exit_ok, action, max),
    {
        let crash = !exit_ok && self.state.status != ServerStatus::Stopping;
        self.state.status = if crash { ServerStatus::Crashed } else { ServerStatus::Stopped };
        self.state.attached = false;
        self.state.pid = None;
        if !crash {
            self.state.restart_count = 0;
            return ExitPlan::NoRestart;
        }
        if action == CrashAction::Stop {
            return ExitPlan::NoRestart;
        }
        let count = self.state.restart_count + 1;
        self.state.restart_count = count;
        if count <= max {
            ExitPlan::RestartAfter { secs: backoff_secs(action, count), attempt: count }
        } else {
            ExitPlan::LimitReached { max }
        }
    }

    /// Before a restart, a server that is not stopped is asked to stop first.
    pub fn needs_stop_before_restart(&self) -> (b: bool)
        ensures
            b == (self@.status != ServerStatus::Stopped),
    {
        self.state.status != ServerStatus::Stopped
    }

    /// The arguments given to the Java executable.
    pub fn java_args(cfg: &AppConfig) -> (args: Vec<String>)
        ensures
            args@.len() == cfg.jvm_args@.len() + 5,
            args@[0]@ == "-Xms"@ + crate::text::decimal_spec(cfg.min_ram_mb as nat) + "M"@,
            args@[1]@ == "-Xmx"@ + crate::text::decimal_spec(cfg.max_ram_mb as nat) + "M"@,
            forall|i: int| 0 <= i < cfg.jvm_args@.len() ==> args@[i + 2] == cfg.jvm_args@[i],
            args@[cfg.jvm_args@.len() + 2int]@ == "-jar"@,
            args@[cfg.jvm_args@.len() + 3int]@ == "server.jar"@,
            args@[cfg.jvm_args@.len() + 4int]@ == "nogui"@,
    {
        let mut args: Vec<String> = Vec::new();
        args.push(crate::text::concat3("-Xms", crate::text::decimal(cfg.min_ram_mb as u64).as_str(), "M"));
        args.push(crate::text::concat3("-Xmx", crate::text::decimal(cfg.max_ram_mb as u64).as_str(), "M"));
        let n = cfg.jvm_args.len();
        let mut i: usize = 0;
        while i < n
            invariant
                n == cfg.jvm_args@.len(),
                i <= n,
                args@.len() == i + 2,
                args@[0]@ == "-Xms"@ + crate::text::decimal_spec(cfg.min_ram_mb as nat) + "M"@,
                args@[1]@ == "-Xmx"@ + crate::text::decimal_spec(cfg.max_ram_mb as nat) + "M"@,
                forall|j: int| 0 <= j < i ==> args@[j + 2] == cfg.jvm_args@[j],
            decreases n - i,
        {
            args.push(cfg.jvm_args[i].clone());
            i = i + 1;
        }
        args.push(String::from_str("-jar"));
        args.push(String::from_str("server.jar"));
        args.push(String::from_str("nogui"));
        args
    }
}

} // verus!

verus! {

/// After any exit the process is detached, has no pid, and is either
/// stopped or crashed.
pub proof fn law_exit_detaches(s: ServerState, exit_ok: bool, action: CrashAction, max: u32)
    ensures
        !s.exited(exit_ok, action, max).0.attached,
        s.exited(exit_ok, action, max).0.pid is None,
        s.exited(exit_ok, action, max).0.status == ServerStatus::Stopped
            || s.exited(exit_ok, action, max).0.status == ServerStatus::Crashed,
{
}

/// Auto-restart never makes more than `auto_restart_max` attempts in a row,
/// and waits between two seconds and one minute before each.
pub proof fn law_restart_bounded(s: ServerState, exit_ok: bool, action: CrashAction, max: u32)
    requires
        s.exit_counts_restart(exit_ok, action) ==> s.restart_count < u32::MAX,
    ensures
        s.exited(exit_ok, action, max).1 matches ExitPlan::RestartAfter { secs, attempt } ==> {
            &&& 1 <= attempt <= max
            &&& attempt == s.exited(exit_ok, action, max).0.restart_count
            &&& 2 <= secs <= 60
        },
{
}

/// With backoff, restart number `n` waits `min(5 n, 60)` seconds; without, two.
pub proof fn law_backoff_schedule(count: u32)
    ensures
        backoff_secs_spec(CrashAction::RestartWithBackoff, count) == if 5 * count <= 60 { 5 * count } else { 60 },
        backoff_secs_spec(CrashAction::Restart, count) == 2,
{
}

/// A server that was asked to stop is never restarted when it exits, and
/// its crash counter starts over.
pub proof fn law_stop_then_exit_is_clean(s: ServerState, force: bool, exit_ok: bool, action: CrashAction, max: u32)
    requires
        s.attached,
    ensures
        s.stopped_by(force).1 is Ok,
        s.stopped_by(force).0.exited(exit_ok, action, max).1 == ExitPlan::NoRestart,
        s.stopped_by(force).0.exited(exit_ok, action, max).0.status == ServerStatus::Stopped,
        s.stopped_by(force).0.exited(exit_ok, action, max).0.restart_count == 0,
{
}

/// A successful exit always resets the crash counter and never restarts.
pub proof fn law_clean_exit_resets(s: ServerState, action: CrashAction, max: u32)
    ensures
        s.exited(true, action, max).0.restart_count == 0,
        s.exited(true, action, max).1 == ExitPlan::NoRestart,
{
}

/// A successful exit always leaves the server stopped, whatever state it was
/// in; after any exit the server counts as crashed exactly when the exit
/// failed and nobody had asked it to stop.
pub proof fn law_exit_status(s: ServerState, exit_ok: bool, action: CrashAction, max: u32)
    ensures
        s.exited(true, action, max).0.status == ServerStatus::Stopped,
        (s.exited(exit_ok, action, max).0.status == ServerStatus::Crashed)
            <==> (!exit_ok && s.status != ServerStatus::Stopping),
        s.status == ServerStatus::Stopping ==> s.exited(exit_ok, action, max).0.status == ServerStatus::Stopped,
{
}

/// Every crash under a restart policy adds exactly one to the crash counter.
pub proof fn law_crash_counts(s: ServerState, action: CrashAction, max: u32)
    requires
        s.status != ServerStatus::Stopping,
        action != CrashAction::Stop,
        s.restart_count < u32::MAX,
    ensures
        s.exited(false, action, max).0.restart_count == s.restart_count + 1,
        s.exited(false, action, max).0.status == ServerStatus::Crashed,
{
}

/// No transition gives a pid to a detached process.
pub proof fn law_transitions_keep_inv(s: ServerState, pid: Option<u32>, now: i64, force: bool, line: Seq<char>, exit_ok: bool, action: CrashAction, max: u32)
    requires
        s.inv(),
    ensures
        ServerState::initial().inv(),
        s.spawned(pid, now).inv(),
        s.stopped_by(force).0.inv(),
        s.observed(line).inv(),
        s.exited(exit_ok, action, max).0.inv(),
{
}

/// A stop request without an attached process changes nothing.
pub proof fn law_stop_without_process(s: ServerState, force: bool)
    requires
        !s.attached,
    ensures
        s.stopped_by(force) == (s, Err::<KillSig, ServerError>(ServerError::NotRunning)),
{
}

} // verus!

verus! {

/// Where the server jar must be.
pub fn server_jar_path(dir: &str) -> (p: String)
    ensures
        p@ == crate::paths::join_spec(dir@, "server.jar"@),
{
    crate::paths::join(dir, "server.jar")
}

/// Where the EULA acceptance is written before the first start.
pub fn eula_path(dir: &str) -> (p: String)
    ensures
        p@ == crate::paths::join_spec(dir@, "eula.txt"@),
{
    crate::paths::join(dir, "eula.txt")
}

/// The console line announcing a start: the Java command as it is run.
pub fn start_message(cfg: &AppConfig) -> (m: String)
    ensures
        m@ == "Starting: "@ + cfg.java_path@ + " "@
            + ("-Xms"@ + crate::text::decimal_spec(cfg.min_ram_mb as nat) + "M"@) + " "@
            + ("-Xmx"@ + crate::text::decimal_spec(cfg.max_ram_mb as nat) + "M"@) + " "@
            + crate::text::join_spaces(cfg.jvm_args.deep_view()) + " -jar server.jar nogui"@,
{
    let xms = crate::text::concat3("-Xms", crate::text::decimal(cfg.min_ram_mb as u64).as_str(), "M");
    let xmx = crate::text::concat3("-Xmx", crate::text::decimal(cfg.max_ram_mb as u64).as_str(), "M");
    let jvm = crate::text::join_with_spaces(&cfg.jvm_args);
    let a = crate::text::concat3("Starting: ", cfg.java_path.as_str(), " ");
    let b = crate::text::concat3(a.as_str(), xms.as_str(), " ");
    let c = crate::text::concat3(b.as_str(), xmx.as_str(), " ");
    crate::text::concat3(c.as_str(), jvm.as_str(), " -jar server.jar nogui")
}

/// The console line announcing what follows an exit, if anything.
pub fn exit_plan_message(plan: ExitPlan, max: u32) -> (m: Option<String>)
    ensures
        match plan {
            ExitPlan::NoRestart => m is None,
            ExitPlan::RestartAfter { secs, attempt } => m matches Some(s) && s@ == "Auto-restart in "@
                + crate::text::decimal_spec(secs as nat) + "s (attempt "@ + crate::text::decimal_spec(attempt as nat)
                + "/"@ + crate::text::decimal_spec(max as nat) + ")"@,
            ExitPlan::LimitReached { max: lim } => m matches Some(s) && s@ == "Auto-restart limit reached ("@
                + crate::text::decimal_spec(lim as nat) + ")"@,
        },
{
    match plan {
        ExitPlan::NoRestart => None,
        ExitPlan::RestartAfter { secs, attempt } => {
            let a = crate::text::concat3("Auto-restart in ", crate::text::decimal(secs).as_str(), "s (attempt ");
            let b = crate::text::concat3(a.as_str(), crate::text::decimal(attempt as u64).as_str(), "/");
            Some(crate::text::concat3(b.as_str(), crate::text::decimal(max as u64).as_str(), ")"))
        },
        ExitPlan::LimitReached { max: lim } => {
            Some(crate::text::concat3("Auto-restart limit reached (", crate::text::decimal(lim as u64).as_str(), ")"))
        },
    }
}

} // verus!

verus! {

/// How many half-second waits a restart gives a stopping server.
pub const RESTART_POLLS: u32 = 60;

/// What a restart does next, while it waits for the server to stop.
#[derive(Debug, Clone, Copy, PartialEq, Eq, Structural)]
pub enum RestartStep {
    /// Start the server now.
    StartNow,
    /// Wait this many milliseconds, then look again.
    WaitMillis(u64),
}

/// A restart that has asked the server to stop starts it again as soon as it
/// is stopped, and after sixty waits of half a second in any case.
pub fn restart_poll(status: ServerStatus, waits_done: u32) -> (step: RestartStep)
    ensures
        (status == ServerStatus::Stopped || waits_done >= RESTART_POLLS) ==> step == RestartStep::StartNow,
        !(status == ServerStatus::Stopped || waits_done >= RESTART_POLLS) ==> step == RestartStep::WaitMillis(500),
{
    if status == ServerStatus::Stopped || waits_done >= RESTART_POLLS {
        RestartStep::StartNow
    } else {
        RestartStep::WaitMillis(500)
    }
}

} // verus!
