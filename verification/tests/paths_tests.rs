use craftmc::files::{listing_path, safe_join, sort_dir_entries, DirEntry};
use craftmc::paths::{file_name, join, PathError};

#[test]
fn file_name_takes_the_last_component() {
    assert_eq!(file_name("a/b/c.zip"), Some("c.zip".to_string()));
    assert_eq!(file_name("c.zip"), Some("c.zip".to_string()));
    assert_eq!(file_name("a/b/"), Some("b".to_string()));
    assert_eq!(file_name("a/b/."), Some("b".to_string()));
    assert_eq!(file_name("/"), None);
    assert_eq!(file_name(""), None);
    assert_eq!(file_name("a/.."), None);
    assert_eq!(file_name(".."), None);
    assert_eq!(file_name("../x"), Some("x".to_string()));
}

#[test]
fn join_follows_pathbuf_push() {
    assert_eq!(join("/srv", "world"), "/srv/world");
    assert_eq!(join("/srv/", "world"), "/srv/world");
    assert_eq!(join("/srv", "/etc"), "/etc");
    assert_eq!(join("", "x"), "x");
    assert_eq!(join("./server", "plugins"), "./server/plugins");
}

#[test]
fn safe_join_confines_paths() {
    assert_eq!(safe_join("/srv", "world/region").unwrap(), "/srv/world/region");
    assert_eq!(safe_join("/srv", "/world//region/").unwrap(), "/srv/world/region");
    assert_eq!(safe_join("/srv", "./a/./b").unwrap(), "/srv/a/b");
    assert_eq!(safe_join("/srv", "").unwrap(), "/srv");
    assert_eq!(safe_join("/srv", "/").unwrap(), "/srv");
    assert_eq!(safe_join("/srv", "../etc/passwd"), Err(PathError::InvalidComponent));
    assert_eq!(safe_join("/srv", "a/../../b"), Err(PathError::InvalidComponent));
    assert_eq!(safe_join("/srv", "a/..b").unwrap(), "/srv/a/..b");
}

#[test]
fn path_errors_have_messages() {
    assert_eq!(PathError::InvalidComponent.message(), "invalid path component");
    assert_eq!(PathError::BadName.message(), "bad name");
    assert_eq!(PathError::OnlyZip.message(), "only zip backups");
    assert_eq!(PathError::NotMca.message(), "not an mca");
    assert_eq!(PathError::UnknownDimension.message(), "unknown dimension");
    assert_eq!(PathError::BadFilename.message(), "bad filename");
    assert_eq!(PathError::InvalidFilename.message(), "invalid filename");
    assert_eq!(PathError::MustBeJar.message(), "must be .jar");
}

fn entry(name: &str, is_dir: bool) -> DirEntry {
    DirEntry { name: name.to_string(), path: format!("/{name}"), is_dir, size: 0, modified: None }
}

#[test]
fn listing_puts_directories_first_then_by_name() {
    let v = vec![
        entry("zeta.txt", false),
        entry("Alpha", true),
        entry("beta.txt", false),
        entry("world", true),
        entry("Banner.png", false),
    ];
    let names: Vec<String> = sort_dir_entries(v).into_iter().map(|e| e.name).collect();
    assert_eq!(names, vec!["Alpha", "world", "Banner.png", "beta.txt", "zeta.txt"]);
}

#[test]
fn listing_is_stable_for_equal_keys() {
    let v = vec![entry("A", false), entry("a", false)];
    let names: Vec<String> = sort_dir_entries(v).into_iter().map(|e| e.name).collect();
    assert_eq!(names, vec!["A", "a"]);
}

#[test]
fn listing_paths() {
    assert_eq!(listing_path("", "x"), "/x");
    assert_eq!(listing_path("/", "x"), "/x");
    assert_eq!(listing_path("world", "x"), "world/x");
    assert_eq!(listing_path("/world//", "x"), "/world/x");
}
