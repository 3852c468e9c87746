//! The request rules of the web API: what each endpoint checks before it
//! acts, what it refuses with which status and message, and the commands
//! and texts it builds. The HTTP plumbing is the program's.
use vstd::prelude::*;
use crate::config::{AppConfig, CrashAction};
use crate::text::{chars_of, concat2, concat3, ends_with, ends_with_seq, is_valid_name_spec, string_of, trim_spec};

verus! {

/// An error answer: an HTTP status and a message.
#[derive(Debug)]
pub struct ApiError {
    pub status: u16,
    pub msg: String,
}

impl ApiError {
    /// 400 with a message.
    pub fn bad(msg: &str) -> (e: ApiError)
        ensures
            e.status == 400,
            e.msg@ == msg@,
    {
        ApiError { status: 400, msg: String::from_str(msg) }
    }

    /// 500 with a message.
    pub fn server(msg: &str) -> (e: ApiError)
        ensures
            e.status == 500,
            e.msg@ == msg@,
    {
        ApiError { status: 500, msg: String::from_str(msg) }
    }

    pub fn status(status: u16, msg: &str) -> (e: ApiError)
        ensures
            e.status == status,
            e.msg@ == msg@,
    {
        ApiError { status, msg: String::from_str(msg) }
    }
}

/// The first-run setup request.
#[derive(Debug)]
pub struct SetupReq {
    pub password: String,
    pub server_dir: Option<String>,
    pub paper_url: String,
    pub min_ram_mb: u32,
    pub max_ram_mb: u32,
    pub java_path: Option<String>,
    pub crash_action: CrashAction,
    pub auto_restart_max: Option<u32>,
    pub host: Option<String>,
}

/// Why a setup request is refused, if it is: once set up, never again; a
/// password of at least six bytes; at least 256 MB and a maximum no smaller
/// than the minimum.
pub open spec fn setup_refusal(setup_complete: bool, password: Seq<char>, min_ram: u32, max_ram: u32) -> Option<Seq<char>> {
    if setup_complete {
        Some("already set up"@)
    } else if crate::text::utf8_len(password) < 6 {
        Some("password too short"@)
    } else if min_ram < 256 || max_ram < min_ram {
        Some("invalid RAM"@)
    } else {
        None
    }
}

pub fn check_setup(setup_complete: bool, req: &SetupReq) -> (r: Result<(), ApiError>)
    ensures
        match setup_refusal(setup_complete, req.password@, req.min_ram_mb, req.max_ram_mb) {
            Some(m) => r matches Err(e) && e.status == 400 && e.msg@ == m,
            None => r is Ok,
        },
{
    if setup_complete {
        return Err(ApiError::bad("already set up"));
    }
    if req.password.as_str().as_bytes().len() < 6 {
        return Err(ApiError::bad("password too short"));
    }
    if req.min_ram_mb < 256 || req.max_ram_mb < req.min_ram_mb {
        return Err(ApiError::bad("invalid RAM"));
    }
    Ok(())
}

/// The configuration after an accepted setup, marked complete.
pub fn apply_setup(cfg: AppConfig, req: SetupReq, password_hash: String) -> (c: AppConfig)
    ensures
        c.password_hash matches Some(h) && h@ == password_hash@,
        c.server_dir@ == (match req.server_dir { Some(d) => d@, None => "server"@ }),
        c.paper_url matches Some(u) && u@ == req.paper_url@,
        c.min_ram_mb == req.min_ram_mb,
        c.max_ram_mb == req.max_ram_mb,
        c.java_path@ == (match req.java_path { Some(j) => j@, None => cfg.java_path@ }),
        c.crash_action == req.crash_action,
        c.auto_restart_max == (match req.auto_restart_max { Some(n) => n, None => cfg.auto_restart_max }),
        c.host@ == (match req.host { Some(h) => h@, None => cfg.host@ }),
        c.setup_complete,
        c.jvm_args == cfg.jvm_args,
        c.motd == cfg.motd,
        c.auto_backup_enabled == cfg.auto_backup_enabled,
        c.auto_backup_interval_minutes == cfg.auto_backup_interval_minutes,
        c.backup_keep == cfg.backup_keep,
{
    let mut c = cfg;
    c.setup_complete = true;
    c.password_hash = Some(password_hash);
    c.server_dir = match req.server_dir {
        Some(d) => d,
        None => String::from_str("server"),
    };
    c.paper_url = Some(req.paper_url);
    c.min_ram_mb = req.min_ram_mb;
    c.max_ram_mb = req.max_ram_mb;
    match req.java_path {
        Some(j) => { c.java_path = j; },
        None => {},
    }
    c.crash_action = req.crash_action;
    match req.auto_restart_max {
        Some(n) => { c.auto_restart_max = n; },
        None => {},
    }
    match req.host {
        Some(h) => { c.host = h; },
        None => {},
    }
    c
}

/// A partial configuration update: each given field replaces the current one.
#[derive(Debug)]
pub struct ConfigUpdate {
    pub paper_url: Option<String>,
    pub min_ram_mb: Option<u32>,
    pub max_ram_mb: Option<u32>,
    pub java_path: Option<String>,
    pub jvm_args: Option<Vec<String>>,
    pub crash_action: Option<CrashAction>,
    pub auto_restart_max: Option<u32>,
    pub host: Option<String>,
    pub motd: Option<String>,
    pub auto_backup_enabled: Option<bool>,
    pub auto_backup_interval_minutes: Option<u64>,
    pub backup_keep: Option<usize>,
}

pub open spec fn pick<T>(o: Option<T>, cur: T) -> T {
    match o {
        Some(v) => v,
        None => cur,
    }
}

/// Apply an update; refused when the maximum RAM would end below the minimum.
pub fn apply_update(cfg: AppConfig, u: ConfigUpdate) -> (r: Result<AppConfig, ApiError>)
    ensures
        ({
            let min = pick(u.min_ram_mb, cfg.min_ram_mb);
            let max = pick(u.max_ram_mb, cfg.max_ram_mb);
            if max < min {
                r matches Err(e) && e.status == 400 && e.msg@ == "max < min RAM"@
            } else {
                r matches Ok(c) && {
                    &&& c.min_ram_mb == min
                    &&& c.max_ram_mb == max
                    &&& c.paper_url == (match u.paper_url { Some(v) => Some(v), None => cfg.paper_url })
                    &&& c.java_path == pick(u.java_path, cfg.java_path)
                    &&& c.jvm_args == pick(u.jvm_args, cfg.jvm_args)
                    &&& c.crash_action == pick(u.crash_action, cfg.crash_action)
                    &&& c.auto_restart_max == pick(u.auto_restart_max, cfg.auto_restart_max)
                    &&& c.host == pick(u.host, cfg.host)
                    &&& c.motd == pick(u.motd, cfg.motd)
                    &&& c.auto_backup_enabled == pick(u.auto_backup_enabled, cfg.auto_backup_enabled)
                    &&& c.auto_backup_interval_minutes == pick(u.auto_backup_interval_minutes, cfg.auto_backup_interval_minutes)
                    &&& c.backup_keep == pick(u.backup_keep, cfg.backup_keep)
                    &&& c.setup_complete == cfg.setup_complete
                    &&& c.password_hash == cfg.password_hash
                    &&& c.server_dir == cfg.server_dir
                }
            }
        }),
{
    let mut c = cfg;
    match u.paper_url { Some(v) => { c.paper_url = Some(v); }, None => {} }
    match u.min_ram_mb { Some(v) => { c.min_ram_mb = v; }, None => {} }
    match u.max_ram_mb { Some(v) => { c.max_ram_mb = v; }, None => {} }
    match u.java_path { Some(v) => { c.java_path = v; }, None => {} }
    match u.jvm_args { Some(v) => { c.jvm_args = v; }, None => {} }
    match u.crash_action { Some(v) => { c.crash_action = v; }, None => {} }
    match u.auto_restart_max { Some(v) => { c.auto_restart_max = v; }, None => {} }
    match u.host { Some(v) => { c.host = v; }, None => {} }
    match u.motd { Some(v) => { c.motd = v; }, None => {} }
    match u.auto_backup_enabled { Some(v) => { c.auto_backup_enabled = v; }, None => {} }
    match u.auto_backup_interval_minutes { Some(v) => { c.auto_backup_interval_minutes = v; }, None => {} }
    match u.backup_keep { Some(v) => { c.backup_keep = v; }, None => {} }
    if c.max_ram_mb < c.min_ram_mb {
        return Err(ApiError::bad("max < min RAM"));
    }
    Ok(c)
}

/// The console command that kicks a player, with the reason when one is given.
pub fn kick_command(name: &str, reason: Option<&str>) -> (r: Result<String, ApiError>)
    ensures
        !is_valid_name_spec(name@) ==> (r matches Err(e) && e.status == 400 && e.msg@ == "invalid name"@),
        is_valid_name_spec(name@) ==> (r matches Ok(c) && c@ == match reason {
            Some(x) => if x@.len() > 0 { "kick "@ + name@ + " "@ + x@ } else { "kick "@ + name@ },
            None => "kick "@ + name@,
        }),
{
    if !crate::text::is_valid_name(name) {
        return Err(ApiError::bad("invalid name"));
    }
    match reason {
        Some(x) => {
            if !x.is_empty() {
                let a = concat3("kick ", name, " ");
                Ok(concat2(a.as_str(), x))
            } else {
                Ok(concat2("kick ", name))
            }
        },
        None => Ok(concat2("kick ", name)),
    }
}

/// The files listed as a plugin's configuration.
pub open spec fn is_config_file_spec(f: Seq<char>) -> bool {
    ends_with_seq(f, ".yml"@) || ends_with_seq(f, ".yaml"@) || ends_with_seq(f, ".json"@)
        || ends_with_seq(f, ".conf"@) || ends_with_seq(f, ".toml"@) || ends_with_seq(f, ".properties"@)
}

/// The plugin config editor lists exactly the files named with one of the
/// extensions `.yml`, `.yaml`, `.json`, `.conf`, `.toml` and `.properties`.
pub proof fn law_config_extensions(f: Seq<char>, stem: Seq<char>)
    ensures
        is_config_file_spec(stem + ".yml"@),
        is_config_file_spec(stem + ".yaml"@),
        is_config_file_spec(stem + ".json"@),
        is_config_file_spec(stem + ".conf"@),
        is_config_file_spec(stem + ".toml"@),
        is_config_file_spec(stem + ".properties"@),
        is_config_file_spec(f) ==> ends_with_seq(f, ".yml"@) || ends_with_seq(f, ".yaml"@) || ends_with_seq(f, ".json"@)
            || ends_with_seq(f, ".conf"@) || ends_with_seq(f, ".toml"@) || ends_with_seq(f, ".properties"@),
{
    let exts = seq![".yml"@, ".yaml"@, ".json"@, ".conf"@, ".toml"@, ".properties"@];
    assert forall|k: int| 0 <= k < 6 implies ends_with_seq(stem + #[trigger] exts[k], exts[k]) by {
        let e = exts[k];
        assert((stem + e).subrange((stem + e).len() - e.len(), (stem + e).len() as int) =~= e);
    }
    assert(exts[0] == ".yml"@);
    assert(exts[1] == ".yaml"@);
    assert(exts[2] == ".json"@);
    assert(exts[3] == ".conf"@);
    assert(exts[4] == ".toml"@);
    assert(exts[5] == ".properties"@);
}

pub fn is_config_file(f: &str) -> (b: bool)
    ensures
        b == is_config_file_spec(f@),
{
    let cs = chars_of(f);
    ends_with(cs.as_slice(), chars_of(".yml").as_slice()) || ends_with(cs.as_slice(), chars_of(".yaml").as_slice())
        || ends_with(cs.as_slice(), chars_of(".json").as_slice()) || ends_with(cs.as_slice(), chars_of(".conf").as_slice())
        || ends_with(cs.as_slice(), chars_of(".toml").as_slice()) || ends_with(cs.as_slice(), chars_of(".properties").as_slice())
}

/// The setup page may follow only the server jar download: 404 for an
/// unknown task, 403 for any other kind of task.
pub fn check_setup_task(kind: Option<&str>) -> (r: Result<(), ApiError>)
    ensures
        match kind {
            None => r matches Err(e) && e.status == 404 && e.msg@ == "task not found"@,
            Some(k) => if k@ == "download_jar"@ { r is Ok } else { r matches Err(e) && e.status == 403 && e.msg@ == "not allowed"@ },
        },
{
    match kind {
        None => Err(ApiError::status(404, "task not found")),
        Some(k) => if crate::text::same_text(k, "download_jar") { Ok(()) } else { Err(ApiError::status(403, "not allowed")) },
    }
}

/// The parties of a deal created by a query string: the comma-separated
/// pieces, trimmed.
pub fn parse_parties(parties: &str) -> (r: Vec<String>)
    ensures
        r.deep_view() == crate::auth::split_on(parties@, ',').map_values(|p: Seq<char>| trim_spec(p)),
{
    let cs = chars_of(parties);
    let pieces = crate::auth::split_pieces(&cs, ',');
    let ghost all = pieces.deep_view();
    let mut out: Vec<String> = Vec::new();
    let mut i: usize = 0;
    while i < pieces.len()
        invariant
            all == pieces.deep_view(),
            i <= pieces@.len(),
            out@.len() == i,
            forall|k: int| 0 <= k < i ==> (#[trigger] out@[k])@ == trim_spec(all[k]),
        decreases pieces@.len() - i,
    {
        assert(all[i as int] == pieces@[i as int].deep_view());
        assert(pieces@[i as int].deep_view() =~= pieces@[i as int]@);
        let t = crate::text::trim_chars(pieces[i].as_slice());
        out.push(string_of(t.as_slice()));
        i = i + 1;
    }
    assert(out.deep_view() =~= all.map_values(|p: Seq<char>| trim_spec(p)));
    out
}

/// A login: refused with 503 before setup, 400 without a stored password,
/// 401 for a wrong password.
pub fn check_login(setup_complete: bool, password_hash: Option<&str>, password: &str) -> (r: Result<(), ApiError>)
    ensures
        !setup_complete ==> (r matches Err(e) && e.status == 503 && e.msg@ == "setup not complete"@),
        setup_complete && password_hash is None ==> (r matches Err(e) && e.status == 400 && e.msg@ == "no password set"@),
        setup_complete && password_hash is Some ==> {
            let h = password_hash.unwrap();
            if crate::auth::argon2_accepts(password@, h@) { r is Ok } else { r matches Err(e) && e.status == 401 && e.msg@ == "bad password"@ }
        },
{
    if !setup_complete {
        return Err(ApiError::status(503, "setup not complete"));
    }
    let h = match password_hash {
        Some(h) => h,
        None => return Err(ApiError::bad("no password set")),
    };
    if !crate::auth::verify_password(password, h) {
        return Err(ApiError::status(401, "bad password"));
    }
    Ok(())
}

/// The cookie that carries a session for thirty days.
pub fn session_cookie(token: &str) -> (c: String)
    ensures
        c@ == "cmc_session="@ + token@ + "; Path=/; HttpOnly; SameSite=Lax; Max-Age=2592000"@,
{
    concat3("cmc_session=", token, "; Path=/; HttpOnly; SameSite=Lax; Max-Age=2592000")
}

/// The query of a marketplace search, trimmed; an empty one is refused.
pub fn search_query(q: &str) -> (r: Result<String, ApiError>)
    ensures
        trim_spec(q@).len() == 0 ==> (r matches Err(e) && e.status == 400 && e.msg@ == "empty query"@),
        trim_spec(q@).len() > 0 ==> (r matches Ok(t) && t@ == trim_spec(q@)),
{
    let t = crate::text::trim(q);
    if t.as_str().is_empty() {
        return Err(ApiError::bad("empty query"));
    }
    Ok(t)
}

/// A marketplace named in an install request.
#[derive(Debug, Clone, Copy, PartialEq, Eq, Structural)]
pub enum Market {
    Modrinth,
    Hangar,
}

pub fn market_of(source: &str) -> (r: Result<Market, ApiError>)
    ensures
        source@ == "modrinth"@ ==> r == Ok::<Market, ApiError>(Market::Modrinth),
        source@ == "hangar"@ ==> r == Ok::<Market, ApiError>(Market::Hangar),
        source@ != "modrinth"@ && source@ != "hangar"@ ==> (r matches Err(e) && e.status == 400 && e.msg@ == "unknown source"@),
{
    proof {
        reveal_strlit("modrinth");
        reveal_strlit("hangar");
        assert("modrinth"@.len() != "hangar"@.len());
    }
    if crate::text::same_text(source, "modrinth") {
        Ok(Market::Modrinth)
    } else if crate::text::same_text(source, "hangar") {
        Ok(Market::Hangar)
    } else {
        Err(ApiError::bad("unknown source"))
    }
}

/// The editor opens files of at most 4 MiB.
pub const EDITOR_MAX_BYTES: u64 = 4194304;

pub fn check_editor_size(len: u64) -> (r: Result<(), ApiError>)
    ensures
        len > EDITOR_MAX_BYTES ==> (r matches Err(e) && e.status == 400 && e.msg@ == "file too large for editor (>4MiB)"@),
        len <= EDITOR_MAX_BYTES ==> r is Ok,
{
    if len > EDITOR_MAX_BYTES {
        return Err(ApiError::bad("file too large for editor (>4MiB)"));
    }
    Ok(())
}

/// Region files are edited only while the server is down.
pub fn check_region_edit(status: crate::server::ServerStatus) -> (r: Result<(), ApiError>)
    ensures
        (status == crate::server::ServerStatus::Stopped || status == crate::server::ServerStatus::Crashed) ==> r is Ok,
        !(status == crate::server::ServerStatus::Stopped || status == crate::server::ServerStatus::Crashed) ==> (r matches Err(e)
            && e.status == 400 && e.msg@ == "stop the server before editing region files"@),
{
    if !crate::server::allows_region_edit(status) {
        return Err(ApiError::bad("stop the server before editing region files"));
    }
    Ok(())
}

/// A plugin install may not overwrite an existing plugin unless asked to.
pub fn check_install_target(target_exists: bool, replace: bool) -> (r: Result<(), ApiError>)
    ensures
        target_exists && !replace ==> (r matches Err(e) && e.status == 400 && e.msg@ == "plugin already exists; pass replace=true"@),
        !(target_exists && !replace) ==> r is Ok,
{
    if crate::plugins::check_upload(target_exists, replace).is_err() {
        return Err(ApiError::bad("plugin already exists; pass replace=true"));
    }
    Ok(())
}

} // verus!
