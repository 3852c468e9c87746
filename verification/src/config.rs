use vstd::prelude::*;

verus! {

/// What the manager does when the server process exits abnormally.
#[derive(Debug, Clone, Copy, PartialEq, Eq, Structural)]
pub enum CrashAction {
    Stop,
    Restart,
    RestartWithBackoff,
}

/// The manager's persisted configuration. Paths are kept as strings.
#[derive(Debug, Clone)]
pub struct AppConfig {
    pub setup_complete: bool,
    pub password_hash: Option<String>,
    pub server_dir: String,
    pub paper_url: Option<String>,
    pub min_ram_mb: u32,
    pub max_ram_mb: u32,
    pub java_path: String,
    pub jvm_args: Vec<String>,
    pub crash_action: CrashAction,
    pub auto_restart_max: u32,
    pub host: String,
    pub motd: String,
    pub auto_backup_enabled: bool,
    pub auto_backup_interval_minutes: u64,
    pub backup_keep: usize,
}

/// The configuration a fresh installation starts from.
pub open spec fn is_default_config(c: AppConfig) -> bool {
    &&& !c.setup_complete
    &&& c.password_hash is None
    &&& c.server_dir@ == "server"@
    &&& c.paper_url is None
    &&& c.min_ram_mb == 1024
    &&& c.max_ram_mb == 4096
    &&& c.java_path@ == "java"@
    &&& c.jvm_args@.len() == 3
    &&& c.jvm_args@[0]@ == "-XX:+UseG1GC"@
    &&& c.jvm_args@[1]@ == "-XX:+ParallelRefProcEnabled"@
    &&& c.jvm_args@[2]@ == "-XX:MaxGCPauseMillis=200"@
    &&& c.crash_action == CrashAction::RestartWithBackoff
    &&& c.auto_restart_max == 5
    &&& c.host@ == "0.0.0.0"@
    &&& c.motd@ == "A CraftMC Server"@
    &&& c.auto_backup_enabled
    &&& c.auto_backup_interval_minutes == 360
    &&& c.backup_keep == 10
}

impl Default for AppConfig {
    fn default() -> (c: Self)
        ensures
            is_default_config(c),
    {
        let mut jvm_args: Vec<String> = Vec::new();
        jvm_args.push(String::from_str("-XX:+UseG1GC"));
        jvm_args.push(String::from_str("-XX:+ParallelRefProcEnabled"));
        jvm_args.push(String::from_str("-XX:MaxGCPauseMillis=200"));
        AppConfig {
            setup_complete: false,
            password_hash: None,
            server_dir: String::from_str("server"),
            paper_url: None,
            min_ram_mb: 1024,
            max_ram_mb: 4096,
            java_path: String::from_str("java"),
            jvm_args,
            crash_action: CrashAction::RestartWithBackoff,
            auto_restart_max: 5,
            host: String::from_str("0.0.0.0"),
            motd: String::from_str("A CraftMC Server"),
            auto_backup_enabled: true,
            auto_backup_interval_minutes: 360,
            backup_keep: 10,
        }
    }
}

impl AppConfig {
    /// Where the configuration file is stored.
    pub fn config_path() -> (p: String)
        ensures
            p@ == "data/config.toml"@,
    {
        String::from_str("data/config.toml")
    }
}

} // verus!
