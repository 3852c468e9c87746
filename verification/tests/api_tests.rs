use craftmc::api::{check_editor_size, check_install_target, check_region_edit, EDITOR_MAX_BYTES};
use craftmc::server::ServerStatus;
use craftmc::api::{
    apply_setup, apply_update, check_login, check_setup, check_setup_task, is_config_file, kick_command, market_of,
    parse_parties, search_query, session_cookie, ApiError, ConfigUpdate, Market, SetupReq,
};
use craftmc::auth::hash_password;
use craftmc::config::{AppConfig, CrashAction};

fn req(pw: &str, min: u32, max: u32) -> SetupReq {
    SetupReq {
        password: pw.to_string(),
        server_dir: None,
        paper_url: "https://papermc.io/paper.jar".to_string(),
        min_ram_mb: min,
        max_ram_mb: max,
        java_path: None,
        crash_action: CrashAction::Restart,
        auto_restart_max: Some(3),
        host: None,
    }
}

fn err(r: Result<(), ApiError>) -> (u16, String) {
    let e = r.unwrap_err();
    (e.status, e.msg)
}

#[test]
fn config_defaults() {
    let c = AppConfig::default();
    assert!(!c.setup_complete);
    assert_eq!(c.server_dir, "server");
    assert_eq!((c.min_ram_mb, c.max_ram_mb), (1024, 4096));
    assert_eq!(c.java_path, "java");
    assert_eq!(c.jvm_args, vec!["-XX:+UseG1GC", "-XX:+ParallelRefProcEnabled", "-XX:MaxGCPauseMillis=200"]);
    assert_eq!(c.crash_action, CrashAction::RestartWithBackoff);
    assert_eq!(c.auto_restart_max, 5);
    assert_eq!(c.host, "0.0.0.0");
    assert_eq!(c.motd, "A CraftMC Server");
    assert!(c.auto_backup_enabled);
    assert_eq!(c.auto_backup_interval_minutes, 360);
    assert_eq!(c.backup_keep, 10);
    assert_eq!(AppConfig::config_path(), "data/config.toml");
}

#[test]
fn setup_is_checked() {
    assert_eq!(err(check_setup(true, &req("secret1", 1024, 2048))), (400, "already set up".to_string()));
    assert_eq!(err(check_setup(false, &req("short", 1024, 2048))), (400, "password too short".to_string()));
    assert_eq!(err(check_setup(false, &req("secret1", 128, 2048))), (400, "invalid RAM".to_string()));
    assert_eq!(err(check_setup(false, &req("secret1", 2048, 1024))), (400, "invalid RAM".to_string()));
    assert!(check_setup(false, &req("secret", 256, 256)).is_ok());
    // Six bytes, counted in UTF-8.
    assert!(check_setup(false, &req("ééé", 512, 512)).is_ok());
}

#[test]
fn setup_fills_the_config() {
    let c = apply_setup(AppConfig::default(), req("secret1", 512, 1024), "HASH".to_string());
    assert_eq!(c.password_hash.as_deref(), Some("HASH"));
    assert_eq!(c.server_dir, "server");
    assert_eq!(c.paper_url.as_deref(), Some("https://papermc.io/paper.jar"));
    assert_eq!((c.min_ram_mb, c.max_ram_mb), (512, 1024));
    assert_eq!(c.java_path, "java");
    assert_eq!(c.crash_action, CrashAction::Restart);
    assert_eq!(c.auto_restart_max, 3);
    assert_eq!(c.host, "0.0.0.0");
    assert!(c.setup_complete);
    let mut r = req("secret1", 512, 1024);
    r.server_dir = Some("/srv/mc".into());
    r.host = Some("127.0.0.1".into());
    r.java_path = Some("/usr/bin/java".into());
    let c = apply_setup(AppConfig::default(), r, "H".into());
    assert_eq!(c.server_dir, "/srv/mc");
    assert_eq!(c.host, "127.0.0.1");
    assert_eq!(c.java_path, "/usr/bin/java");
}

fn empty_update() -> ConfigUpdate {
    ConfigUpdate {
        paper_url: None,
        min_ram_mb: None,
        max_ram_mb: None,
        java_path: None,
        jvm_args: None,
        crash_action: None,
        auto_restart_max: None,
        host: None,
        motd: None,
        auto_backup_enabled: None,
        auto_backup_interval_minutes: None,
        backup_keep: None,
    }
}

#[test]
fn config_updates() {
    let mut u = empty_update();
    u.motd = Some("Hi".into());
    u.backup_keep = Some(3);
    u.max_ram_mb = Some(8192);
    let c = apply_update(AppConfig::default(), u).unwrap();
    assert_eq!(c.motd, "Hi");
    assert_eq!(c.backup_keep, 3);
    assert_eq!(c.max_ram_mb, 8192);
    assert_eq!(c.min_ram_mb, 1024);
    let mut bad = empty_update();
    bad.max_ram_mb = Some(512);
    let e = apply_update(AppConfig::default(), bad).unwrap_err();
    assert_eq!((e.status, e.msg.as_str()), (400, "max < min RAM"));
    assert!(apply_update(AppConfig::default(), empty_update()).is_ok());
}

#[test]
fn kick_commands() {
    assert_eq!(kick_command("Steve", None).unwrap(), "kick Steve");
    assert_eq!(kick_command("Steve", Some("")).unwrap(), "kick Steve");
    assert_eq!(kick_command("Steve", Some("spamming chat")).unwrap(), "kick Steve spamming chat");
    let e = kick_command("bad name", None).unwrap_err();
    assert_eq!((e.status, e.msg.as_str()), (400, "invalid name"));
}

#[test]
fn small_rules() {
    assert!(is_config_file("config.yml"));
    assert!(is_config_file("a.properties"));
    assert!(!is_config_file("plugin.jar"));
    assert!(check_setup_task(Some("download_jar")).is_ok());
    assert_eq!(err(check_setup_task(Some("install_plugin"))), (403, "not allowed".to_string()));
    assert_eq!(err(check_setup_task(None)), (404, "task not found".to_string()));
    assert_eq!(parse_parties(" alice , bob,, carol "), vec!["alice", "bob", "", "carol"]);
    assert_eq!(parse_parties(""), vec![""]);
    assert_eq!(session_cookie("tok"), "cmc_session=tok; Path=/; HttpOnly; SameSite=Lax; Max-Age=2592000");
    assert_eq!(search_query("  essentials ").unwrap(), "essentials");
    let e = search_query("   ").unwrap_err();
    assert_eq!((e.status, e.msg.as_str()), (400, "empty query"));
    assert_eq!(market_of("modrinth").unwrap(), Market::Modrinth);
    assert_eq!(market_of("hangar").unwrap(), Market::Hangar);
    assert_eq!(market_of("curse").unwrap_err().msg, "unknown source");
    let e = ApiError::server("x");
    assert_eq!(e.status, 500);
}

#[test]
fn logins() {
    let h = hash_password("secret1").unwrap();
    assert!(check_login(true, Some(&h), "secret1").is_ok());
    assert_eq!(err(check_login(true, Some(&h), "wrong")), (401, "bad password".to_string()));
    assert_eq!(err(check_login(true, None, "x")), (400, "no password set".to_string()));
    assert_eq!(err(check_login(false, Some(&h), "secret1")), (503, "setup not complete".to_string()));
}

#[test]
fn editor_region_and_install_rules() {
    assert!(check_editor_size(EDITOR_MAX_BYTES).is_ok());
    assert_eq!(err(check_editor_size(4 * 1024 * 1024 + 1)), (400, "file too large for editor (>4MiB)".to_string()));
    assert!(check_region_edit(ServerStatus::Stopped).is_ok());
    assert!(check_region_edit(ServerStatus::Crashed).is_ok());
    assert_eq!(
        err(check_region_edit(ServerStatus::Running)),
        (400, "stop the server before editing region files".to_string())
    );
    assert!(check_region_edit(ServerStatus::Starting).is_err());
    assert!(check_region_edit(ServerStatus::Stopping).is_err());
    assert_eq!(err(check_install_target(true, false)), (400, "plugin already exists; pass replace=true".to_string()));
    assert!(check_install_target(true, true).is_ok());
    assert!(check_install_target(false, false).is_ok());
}
