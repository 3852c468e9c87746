use craftmc::paths::PathError;
use craftmc::plugins::{
    check_upload, disabled_name, jar_name_for, plugin_entry, plugin_name_from_url, plugins_dir, sanitize_jar,
    sort_plugins, toggle_action, ToggleAction, UploadError,
};

#[test]
fn plugin_dir_is_under_the_server() {
    assert_eq!(plugins_dir("./server"), "./server/plugins");
    assert_eq!(plugins_dir("/srv/mc/"), "/srv/mc/plugins");
}

#[test]
fn jars_and_disabled_jars_are_listed() {
    let e = plugin_entry("EssentialsX.jar", 42, true).unwrap();
    assert_eq!((e.name.as_str(), e.size, e.enabled), ("EssentialsX.jar", 42, true));
    let d = plugin_entry("WorldEdit.JAR.disabled", 7, true).unwrap();
    assert_eq!((d.name.as_str(), d.enabled), ("WorldEdit.JAR", false));
    let dd = plugin_entry("x.jar.disabled.disabled", 1, true);
    assert!(dd.is_none());
    assert!(plugin_entry("readme.txt", 1, true).is_none());
    assert!(plugin_entry("dir.jar", 1, false).is_none());
}

#[test]
fn plugins_sorted_case_insensitively() {
    let v = vec![
        plugin_entry("zeta.jar", 1, true).unwrap(),
        plugin_entry("Alpha.jar", 1, true).unwrap(),
        plugin_entry("beta.jar", 1, true).unwrap(),
    ];
    let names: Vec<String> = sort_plugins(v).into_iter().map(|p| p.name).collect();
    assert_eq!(names, vec!["Alpha.jar", "beta.jar", "zeta.jar"]);
}

#[test]
fn jar_names_are_sanitized() {
    assert_eq!(sanitize_jar("Foo.jar").unwrap(), "Foo.jar");
    assert_eq!(sanitize_jar("dir/Foo.JAR").unwrap(), "Foo.JAR");
    assert_eq!(sanitize_jar("../../Foo.jar").unwrap(), "Foo.jar");
    assert_eq!(sanitize_jar("a\\b.jar"), Err(PathError::InvalidFilename));
    assert_eq!(sanitize_jar("x..y.jar"), Err(PathError::InvalidFilename));
    assert_eq!(sanitize_jar("notes.txt"), Err(PathError::MustBeJar));
    assert_eq!(sanitize_jar(".."), Err(PathError::BadFilename));
    assert_eq!(sanitize_jar(""), Err(PathError::BadFilename));
    assert_eq!(disabled_name("Foo.jar"), "Foo.jar.disabled");
}

#[test]
fn toggling_renames_only_when_needed() {
    assert_eq!(toggle_action(true, false, true), ToggleAction::Enable);
    assert_eq!(toggle_action(true, true, false), ToggleAction::Nothing);
    assert_eq!(toggle_action(false, true, false), ToggleAction::Disable);
    assert_eq!(toggle_action(false, false, true), ToggleAction::Nothing);
}

#[test]
fn uploads_do_not_overwrite_unless_asked() {
    assert_eq!(check_upload(true, false), Err(UploadError::AlreadyExists));
    assert_eq!(check_upload(true, true), Ok(()));
    assert_eq!(check_upload(false, false), Ok(()));
    assert_eq!(UploadError::AlreadyExists.message(), "plugin already exists");
}

#[test]
fn names_from_urls() {
    assert_eq!(jar_name_for("Plugin.JAR"), "Plugin.JAR");
    assert_eq!(jar_name_for("download"), "download.jar");
    assert_eq!(plugin_name_from_url("https://example.com/files/Geyser.jar").unwrap(), "Geyser.jar");
    assert_eq!(plugin_name_from_url("https://example.com/dl/latest").unwrap(), "latest.jar");
    assert_eq!(plugin_name_from_url("https://example.com/").unwrap(), ".jar");
    assert_eq!(plugin_name_from_url("https://example.com/a/b.jar?x=1").unwrap(), "b.jar");
    assert!(plugin_name_from_url("not a url").is_err());
    assert_eq!(plugin_name_from_url("mailto:someone@example.com").unwrap(), "plugin.jar");
}
