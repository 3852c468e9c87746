//! World backups: which files are backups, how they are named, listed
//! newest first and pruned. Zipping and the file system are the program's.
use vstd::prelude::*;
use crate::paths::{file_name, file_name_spec, join, join_spec, PathError};
use crate::text::{chars_of, ends_with, ends_with_seq, string_of};

verus! {


#[derive(Debug)]
pub struct BackupEntry {
    pub name: String,
    pub size: u64,
    /// Seconds since the Unix epoch.
    pub created: i64,
}

pub struct BackupEntryV {
    pub name: Seq<char>,
    pub size: u64,
    pub created: i64,
}

impl View for BackupEntry {
    type V = BackupEntryV;

    open spec fn view(&self) -> BackupEntryV {
        BackupEntryV { name: self.name@, size: self.size, created: self.created }
    }
}

/// Where backups are kept.
pub fn backups_dir() -> (d: String)
    ensures
        d@ == "data/backups"@,
{
    String::from_str("data/backups")
}

/// The file name a backup request refers to: the last component of `name`,
/// which must end in ".zip".
pub open spec fn backup_name_spec(name: Seq<char>) -> Result<Seq<char>, PathError> {
    match file_name_spec(name) {
        None => Err(PathError::BadName),
        Some(f) => if ends_with_seq(f, ".zip"@) { Ok(f) } else { Err(PathError::OnlyZip) },
    }
}

pub fn backup_file_name(name: &str) -> (r: Result<String, PathError>)
    ensures
        match backup_name_spec(name@) {
            Ok(f) => r matches Ok(x) && x@ == f,
            Err(e) => r == Err::<String, PathError>(e),
        },
{
    let safe = match file_name(name) {
        Some(s) => s,
        None => return Err(PathError::BadName),
    };
    let cs = chars_of(safe.as_str());
    let zip = chars_of(".zip");
    if !ends_with(cs.as_slice(), zip.as_slice()) {
        return Err(PathError::OnlyZip);
    }
    Ok(safe)
}

/// The path of the backup a request names, confined to the backups directory.
pub fn backup_path(name: &str) -> (r: Result<String, PathError>)
    ensures
        match backup_name_spec(name@) {
            Ok(f) => r matches Ok(x) && x@ == join_spec("data/backups"@, f),
            Err(e) => r == Err::<String, PathError>(e),
        },
{
    let safe = backup_file_name(name)?;
    let dir = backups_dir();
    Ok(join(dir.as_str(), safe.as_str()))
}

/// A directory entry is listed as a backup when it is a file whose name ends in ".zip".
pub fn is_backup_file(name: &str, is_file: bool) -> (b: bool)
    ensures
        b == (is_file && ends_with_seq(name@, ".zip"@)),
{
    let cs = chars_of(name);
    let zip = chars_of(".zip");
    is_file && ends_with(cs.as_slice(), zip.as_slice())
}

/// The key backups are ordered by: their creation time.
pub open spec fn backup_keys(v: Seq<BackupEntry>) -> Seq<i128> {
    v.map_values(|b: BackupEntry| b.created as i128)
}

/// The backups, newest first; backups made at the same second keep their order.
pub fn sort_backups(v: Vec<BackupEntry>) -> (r: Vec<BackupEntry>)
    ensures
        exists|perm: Seq<usize>| crate::order::is_permutation(perm, v@.len())
            && crate::order::stable_descending(backup_keys(v@), perm)
            && r@.len() == v@.len()
            && forall|k: int| 0 <= k < r@.len() ==> #[trigger] r@[k] == v@[perm[k] as int],
{
    let mut keys: Vec<i128> = Vec::new();
    let mut i: usize = 0;
    while i < v.len()
        invariant
            i <= v@.len(),
            keys@ == backup_keys(v@.subrange(0, i as int)),
        decreases v@.len() - i,
    {
        keys.push(v[i].created as i128);
        assert(backup_keys(v@.subrange(0, i + 1)) =~= backup_keys(v@.subrange(0, i as int)).push(v@[i as int].created as i128));
        i = i + 1;
    }
    assert(v@.subrange(0, v@.len() as int) =~= v@);
    let perm = crate::order::desc_order(&keys);
    crate::order::permute(v, &perm)
}

/// The names of the backups to delete so that only the first `keep` remain.
pub fn prune_plan(sorted: &Vec<BackupEntry>, keep: usize) -> (r: Vec<String>)
    ensures
        sorted@.len() <= keep ==> r@.len() == 0,
        sorted@.len() > keep ==> r.deep_view() == sorted@.subrange(keep as int, sorted@.len() as int).map_values(|b: BackupEntry| b.name@),
{
    let mut out: Vec<String> = Vec::new();
    if sorted.len() <= keep {
        return out;
    }
    let mut i: usize = keep;
    while i < sorted.len()
        invariant
            keep <= i <= sorted@.len(),
            out@.len() == i - keep,
            forall|k: int| 0 <= k < i - keep ==> (#[trigger] out@[k])@ == sorted@[keep + k].name@,
        decreases sorted@.len() - i,
    {
        out.push(sorted[i].name.clone());
        i = i + 1;
    }
    assert(out.deep_view() =~= sorted@.subrange(keep as int, sorted@.len() as int).map_values(|b: BackupEntry| b.name@));
    out
}

/// The file name of a world backup made at `stamp`.
pub fn world_backup_name(stamp: &str) -> (n: String)
    ensures
        n@ == "world-backup-"@ + stamp@ + ".zip"@,
{
    crate::text::concat3("world-backup-", stamp, ".zip")
}

/// The file name for a world backup made now.
pub fn new_world_backup_name() -> (n: String)
    ensures
        exists|stamp: Seq<char>| crate::clock::is_clock_stamp(stamp) && n@ == "world-backup-"@ + stamp + ".zip"@,
{
    let stamp = crate::clock::utc_stamp_now();
    world_backup_name(stamp.as_str())
}

/// The world directories a backup takes, when they exist.
pub fn world_dirs() -> (v: Vec<String>)
    ensures
        v@.len() == 3,
        v@[0]@ == "world"@,
        v@[1]@ == "world_nether"@,
        v@[2]@ == "world_the_end"@,
{
    let mut v: Vec<String> = Vec::new();
    v.push(String::from_str("world"));
    v.push(String::from_str("world_nether"));
    v.push(String::from_str("world_the_end"));
    v
}

/// The name a file or directory gets inside the archive, from its path
/// relative to the server directory: backslashes become slashes, and
/// directories end in a slash (the top directory itself gets none).
pub open spec fn zip_entry_name_spec(rel: Seq<char>, is_dir: bool) -> Option<Seq<char>> {
    let n = rel.map_values(|c: char| if c == '\\' { '/' } else { c });
    if is_dir {
        if n.len() == 0 { None } else { Some(n.push('/')) }
    } else {
        Some(n)
    }
}

pub fn zip_entry_name(rel: &str, is_dir: bool) -> (r: Option<String>)
    ensures
        match zip_entry_name_spec(rel@, is_dir) {
            Some(n) => r matches Some(x) && x@ == n,
            None => r is None,
        },
{
    let cs = chars_of(rel);
    let mut out: Vec<char> = Vec::new();
    let mut i: usize = 0;
    while i < cs.len()
        invariant
            i <= cs@.len(),
            out@ == cs@.subrange(0, i as int).map_values(|c: char| if c == '\\' { '/' } else { c }),
        decreases cs@.len() - i,
    {
        let c = cs[i];
        out.push(if c == '\\' { '/' } else { c });
        assert(out@ =~= cs@.subrange(0, i + 1).map_values(|c: char| if c == '\\' { '/' } else { c }));
        i = i + 1;
    }
    assert(cs@.subrange(0, cs@.len() as int) =~= cs@);
    if is_dir {
        if out.len() == 0 {
            return None;
        }
        out.push('/');
    }
    Some(string_of(out.as_slice()))
}

/// Seconds between automatic backups: the configured minutes, at least fifteen.
pub open spec fn auto_backup_delay_spec(minutes: u64) -> int {
    (if minutes >= 15 { minutes as int } else { 15 }) * 60
}

/// Backups come every configured interval, but never more often than every
/// fifteen minutes: an interval of fifteen minutes or more is waited out in
/// full, a shorter one is raised to fifteen minutes.
pub proof fn law_backup_interval(minutes: u64)
    ensures
        minutes >= 15 ==> auto_backup_delay_spec(minutes) == minutes * 60,
        minutes < 15 ==> auto_backup_delay_spec(minutes) == 900,
        auto_backup_delay_spec(minutes) >= 900,
        auto_backup_delay_spec(minutes) >= minutes * 60,
{
}

pub fn auto_backup_delay_secs(minutes: u64) -> (s: u64)
    requires
        auto_backup_delay_spec(minutes) <= u64::MAX,
    ensures
        s == auto_backup_delay_spec(minutes),
{
    let m = if minutes >= 15 { minutes } else { 15 };
    m * 60
}

} // verus!

verus! {

/// A backup request can only reach a file directly inside the backups
/// directory: the name it resolves to is one named component.
pub proof fn law_backup_path_confined(name: Seq<char>)
    ensures
        backup_name_spec(name) matches Ok(f) ==> {
            &&& join_spec("data/backups"@, f) == "data/backups/"@ + f
            &&& f.len() > 0
            &&& f != seq!['.', '.']
            &&& forall|j: int| 0 <= j < f.len() ==> f[j] != '/'
        },
{
    crate::paths::law_file_name_is_one_component(name);
    reveal_strlit("data/backups");
    reveal_strlit("data/backups/");
    if let Ok(f) = backup_name_spec(name) {
        assert(f[0] != '/');
        assert("data/backups"@ + seq!['/'] + f =~= "data/backups/"@ + f);
    }
}

} // verus!

verus! {

/// What a scheduled backup cycle does once its wait is over: back up the
/// server directory and then keep the newest `backup_keep` backups when
/// automatic backups are enabled, nothing otherwise.
pub fn auto_backup_step(cfg: &crate::config::AppConfig) -> (r: Option<(String, usize)>)
    ensures
        cfg.auto_backup_enabled ==> (r matches Some((dir, keep)) && dir@ == cfg.server_dir@ && keep == cfg.backup_keep),
        !cfg.auto_backup_enabled ==> r is None,
{
    if cfg.auto_backup_enabled {
        Some((cfg.server_dir.clone(), cfg.backup_keep))
    } else {
        None
    }
}

} // verus!
