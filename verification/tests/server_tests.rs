use craftmc::config::{AppConfig, CrashAction};
use craftmc::server::{
    allows_region_edit, backoff_secs, eula_path, exit_plan_message, is_ready_line, server_jar_path, start_message,
    ExitPlan, KillSig, ServerError, ServerProc, ServerStatus,
};
use craftmc::server::{restart_poll, RestartStep, RESTART_POLLS};

#[test]
fn new_server_is_stopped() {
    let s = ServerProc::new();
    let i = s.info();
    assert_eq!(i.status, ServerStatus::Stopped);
    assert_eq!(i.pid, None);
    assert_eq!(i.started_at, None);
    assert_eq!(i.restart_count, 0);
    assert!(s.can_start().is_ok());
}

#[test]
fn stop_without_process_is_refused() {
    let mut s = ServerProc::new();
    assert_eq!(s.stop(false), Err(ServerError::NotRunning));
    assert_eq!(s.status(), ServerStatus::Stopped);
    assert_eq!(ServerError::NotRunning.message(), "server not running");
    assert!(s.send_command("say hi").is_err());
}

#[test]
fn start_then_ready_then_stop_then_clean_exit() {
    let mut s = ServerProc::new();
    s.on_spawned_at(Some(4242), 1_000);
    assert_eq!(s.status(), ServerStatus::Starting);
    assert_eq!(s.info().pid, Some(4242));
    assert_eq!(s.info().started_at, Some(1_000));
    assert_eq!(s.can_start(), Err(ServerError::AlreadyRunning));
    assert_eq!(ServerError::AlreadyRunning.message(), "server already running");
    assert_eq!(s.send_command("list").unwrap(), "list\n");
    s.observe_line("[12:00:00 INFO]: Preparing level \"world\"");
    assert_eq!(s.status(), ServerStatus::Starting);
    s.observe_line("[12:00:05 INFO]: Done (3.2s)! For help, type \"help\"");
    assert_eq!(s.status(), ServerStatus::Running);
    assert_eq!(s.stop(false), Ok(KillSig::Stop));
    assert_eq!(s.status(), ServerStatus::Stopping);
    // A stopped server that exits with an error is still a clean stop.
    let plan = s.on_exit(false, CrashAction::RestartWithBackoff, 5);
    assert_eq!(plan, ExitPlan::NoRestart);
    assert_eq!(s.status(), ServerStatus::Stopped);
    assert_eq!(s.info().pid, None);
    assert!(s.can_start().is_ok());
}

#[test]
fn forced_stop_kills() {
    let mut s = ServerProc::new();
    s.on_spawned(Some(1));
    assert!(s.info().started_at.is_some());
    assert_eq!(s.stop(true), Ok(KillSig::Kill));
}

#[test]
fn crash_restarts_with_backoff_until_limit() {
    let mut s = ServerProc::new();
    let mut secs = Vec::new();
    for _ in 0..3 {
        s.on_spawned_at(Some(7), 0);
        match s.on_exit(false, CrashAction::RestartWithBackoff, 2) {
            ExitPlan::RestartAfter { secs: t, attempt } => secs.push((t, attempt)),
            ExitPlan::LimitReached { max } => secs.push((999, max)),
            ExitPlan::NoRestart => panic!("expected a restart decision"),
        }
        assert_eq!(s.status(), ServerStatus::Crashed);
    }
    assert_eq!(secs, vec![(5, 1), (10, 2), (999, 2)]);
    assert_eq!(s.info().restart_count, 3);
    // A clean exit resets the counter.
    s.on_spawned_at(Some(8), 0);
    assert_eq!(s.on_exit(true, CrashAction::RestartWithBackoff, 2), ExitPlan::NoRestart);
    assert_eq!(s.info().restart_count, 0);
}

#[test]
fn plain_restart_waits_two_seconds_and_stop_policy_never_restarts() {
    let mut s = ServerProc::new();
    s.on_spawned_at(None, 0);
    assert_eq!(s.on_exit(false, CrashAction::Restart, 5), ExitPlan::RestartAfter { secs: 2, attempt: 1 });
    s.on_spawned_at(None, 0);
    assert_eq!(s.on_exit(false, CrashAction::Stop, 5), ExitPlan::NoRestart);
    assert_eq!(s.status(), ServerStatus::Crashed);
    assert_eq!(s.info().restart_count, 1);
}

#[test]
fn backoff_is_capped_at_a_minute() {
    assert_eq!(backoff_secs(CrashAction::RestartWithBackoff, 1), 5);
    assert_eq!(backoff_secs(CrashAction::RestartWithBackoff, 12), 60);
    assert_eq!(backoff_secs(CrashAction::RestartWithBackoff, 13), 60);
    assert_eq!(backoff_secs(CrashAction::Restart, 13), 2);
}

#[test]
fn ready_line_needs_both_markers() {
    assert!(is_ready_line("Done (1.0s)! For help, type \"help\""));
    assert!(!is_ready_line("Done (1.0s)!"));
    assert!(!is_ready_line("For help, type \"help\""));
}

#[test]
fn watcher_stops_once_server_is_stopping() {
    let mut s = ServerProc::new();
    s.on_spawned_at(Some(1), 0);
    s.stop(false).unwrap();
    s.observe_line("something else");
    s.observe_line("Done (1s)! For help, type \"help\"");
    assert_eq!(s.status(), ServerStatus::Stopping);
}

#[test]
fn region_edits_only_when_down() {
    assert!(allows_region_edit(ServerStatus::Stopped));
    assert!(allows_region_edit(ServerStatus::Crashed));
    assert!(!allows_region_edit(ServerStatus::Running));
    assert!(!allows_region_edit(ServerStatus::Starting));
    assert!(!allows_region_edit(ServerStatus::Stopping));
}

#[test]
fn java_command_line() {
    let cfg = AppConfig::default();
    let args = ServerProc::java_args(&cfg);
    assert_eq!(
        args,
        vec![
            "-Xms1024M", "-Xmx4096M", "-XX:+UseG1GC", "-XX:+ParallelRefProcEnabled", "-XX:MaxGCPauseMillis=200",
            "-jar", "server.jar", "nogui"
        ]
    );
    assert_eq!(
        start_message(&cfg),
        "Starting: java -Xms1024M -Xmx4096M -XX:+UseG1GC -XX:+ParallelRefProcEnabled -XX:MaxGCPauseMillis=200 -jar server.jar nogui"
    );
    let mut bare = AppConfig::default();
    bare.jvm_args = Vec::new();
    bare.min_ram_mb = 512;
    assert_eq!(start_message(&bare), "Starting: java -Xms512M -Xmx4096M  -jar server.jar nogui");
}

#[test]
fn restart_messages() {
    assert_eq!(exit_plan_message(ExitPlan::NoRestart, 5), None);
    assert_eq!(
        exit_plan_message(ExitPlan::RestartAfter { secs: 15, attempt: 3 }, 5).unwrap(),
        "Auto-restart in 15s (attempt 3/5)"
    );
    assert_eq!(exit_plan_message(ExitPlan::LimitReached { max: 5 }, 5).unwrap(), "Auto-restart limit reached (5)");
}

#[test]
fn server_files() {
    assert_eq!(server_jar_path("server"), "server/server.jar");
    assert_eq!(eula_path("/srv/mc/"), "/srv/mc/eula.txt");
}

#[test]
fn restart_needs_stop_unless_stopped() {
    let mut s = ServerProc::new();
    assert!(!s.needs_stop_before_restart());
    s.on_spawned_at(Some(3), 0);
    assert!(s.needs_stop_before_restart());
}

#[test]
fn restart_waits_for_the_stop_at_most_sixty_times() {
    assert_eq!(restart_poll(ServerStatus::Stopped, 0), RestartStep::StartNow);
    assert_eq!(restart_poll(ServerStatus::Stopping, 0), RestartStep::WaitMillis(500));
    assert_eq!(restart_poll(ServerStatus::Running, 59), RestartStep::WaitMillis(500));
    assert_eq!(restart_poll(ServerStatus::Stopping, RESTART_POLLS), RestartStep::StartNow);
    assert_eq!(restart_poll(ServerStatus::Crashed, 3), RestartStep::WaitMillis(500));
}
