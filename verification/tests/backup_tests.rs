use craftmc::backup::{
    auto_backup_delay_secs, auto_backup_step, backup_file_name, backup_path, backups_dir, is_backup_file, new_world_backup_name,
    prune_plan, sort_backups, world_backup_name, world_dirs, zip_entry_name, BackupEntry,
};
use craftmc::config::AppConfig;
use craftmc::paths::PathError;

fn b(name: &str, created: i64) -> BackupEntry {
    BackupEntry { name: name.to_string(), size: 10, created }
}

#[test]
fn backup_paths_are_confined() {
    assert_eq!(backups_dir(), "data/backups");
    assert_eq!(backup_path("w.zip").unwrap(), "data/backups/w.zip");
    assert_eq!(backup_path("../../etc/w.zip").unwrap(), "data/backups/w.zip");
    assert_eq!(backup_path("notes.txt"), Err(PathError::OnlyZip));
    assert_eq!(backup_path(".."), Err(PathError::BadName));
    assert_eq!(backup_path(""), Err(PathError::BadName));
    assert_eq!(backup_file_name("a/b.zip").unwrap(), "b.zip");
}

#[test]
fn only_zip_files_are_backups() {
    assert!(is_backup_file("x.zip", true));
    assert!(!is_backup_file("x.zip", false));
    assert!(!is_backup_file("x.tar", true));
}

#[test]
fn backups_list_newest_first() {
    let v = vec![b("a.zip", 5), b("b.zip", 9), b("c.zip", 1), b("d.zip", 9)];
    let s = sort_backups(v);
    let created: Vec<i64> = s.iter().map(|e| e.created).collect();
    assert_eq!(created, vec![9, 9, 5, 1]);
    let names: Vec<&str> = s.iter().map(|e| e.name.as_str()).collect();
    assert_eq!(names, vec!["b.zip", "d.zip", "a.zip", "c.zip"]);
}

#[test]
fn prune_deletes_all_but_the_newest() {
    let s = sort_backups(vec![b("a.zip", 1), b("b.zip", 2), b("c.zip", 3)]);
    assert_eq!(prune_plan(&s, 1), vec!["b.zip".to_string(), "a.zip".to_string()]);
    assert!(prune_plan(&s, 3).is_empty());
    assert!(prune_plan(&s, 7).is_empty());
    assert_eq!(prune_plan(&s, 0).len(), 3);
}

#[test]
fn world_backup_names() {
    assert_eq!(world_backup_name("20240102-030405"), "world-backup-20240102-030405.zip");
    let n = new_world_backup_name();
    assert!(n.starts_with("world-backup-"));
    assert!(n.ends_with(".zip"));
    assert_eq!(n.len(), "world-backup-20240102-030405.zip".len());
    assert_eq!(world_dirs(), vec!["world".to_string(), "world_nether".to_string(), "world_the_end".to_string()]);
}

#[test]
fn zip_entry_names() {
    assert_eq!(zip_entry_name("world\\region\\r.0.0.mca", false), Some("world/region/r.0.0.mca".to_string()));
    assert_eq!(zip_entry_name("world/data", true), Some("world/data/".to_string()));
    assert_eq!(zip_entry_name("", true), None);
    assert_eq!(zip_entry_name("", false), Some(String::new()));
}

#[test]
fn auto_backup_waits_at_least_fifteen_minutes() {
    assert_eq!(auto_backup_delay_secs(0), 900);
    assert_eq!(auto_backup_delay_secs(14), 900);
    assert_eq!(auto_backup_delay_secs(15), 900);
    assert_eq!(auto_backup_delay_secs(60), 3600);
}

#[test]
fn auto_backup_runs_only_when_enabled() {
    let mut c = AppConfig::default();
    c.server_dir = "/srv/mc".to_string();
    c.backup_keep = 4;
    assert_eq!(auto_backup_step(&c), Some(("/srv/mc".to_string(), 4)));
    c.auto_backup_enabled = false;
    assert_eq!(auto_backup_step(&c), None);
}

#[test]
fn world_backup_stamp_has_the_clock_shape() {
    let n = new_world_backup_name();
    let stamp = &n["world-backup-".len()..n.len() - ".zip".len()];
    let cs: Vec<char> = stamp.chars().collect();
    assert!(cs.len() >= 15);
    assert_eq!(cs[cs.len() - 7], '-');
    for (i, c) in cs.iter().enumerate() {
        if i != cs.len() - 7 {
            assert!(c.is_ascii_digit());
        }
    }
}
