use craftmc::marketplace::{
    hangar_item, hangar_project_slug, hangar_search_url, hangar_versions_url, merge_results, modrinth_item,
    modrinth_search_url, modrinth_versions_url, pick_hangar_download, pick_modrinth_file, search_sources,
    urlencoding, HangarDownload, HangarVersion, MarketError, ModrinthFile, ModrinthVersion,
};

#[test]
fn urlencoding_escapes_reserved_bytes() {
    assert_eq!(urlencoding("a b"), "a%20b");
    assert_eq!(urlencoding("é"), "%C3%A9");
    assert_eq!(urlencoding("AZaz09-_.~"), "AZaz09-_.~");
    assert_eq!(urlencoding("a/b?c=d&e"), "a%2Fb%3Fc%3Dd%26e");
    assert_eq!(urlencoding(""), "");
}

#[test]
fn search_addresses() {
    assert_eq!(
        modrinth_search_url("world edit"),
        "https://api.modrinth.com/v2/search?query=world%20edit&facets=%5B%5B%22project_type%3Aplugin%22%5D%2C%5B%22categories%3Apaper%22%2C%22categories%3Aspigot%22%2C%22categories%3Abukkit%22%2C%22categories%3Apurpur%22%2C%22categories%3Afolia%22%5D%5D&limit=20"
    );
    assert_eq!(hangar_search_url("vault"), "https://hangar.papermc.io/api/v1/projects?query=vault&limit=20&platform=PAPER");
    assert_eq!(
        modrinth_versions_url("luckperms", true),
        "https://api.modrinth.com/v2/project/luckperms/version?loaders=%5B%22paper%22%2C%22spigot%22%2C%22bukkit%22%2C%22purpur%22%2C%22folia%22%5D"
    );
    assert_eq!(modrinth_versions_url("luckperms", false), "https://api.modrinth.com/v2/project/luckperms/version");
    assert_eq!(hangar_versions_url("Maintenance"), "https://hangar.papermc.io/api/v1/projects/Maintenance/versions?limit=1&platform=PAPER");
}

#[test]
fn listings_from_answers() {
    let m = modrinth_item("ess".into(), "EssentialsX".into(), "d".into(), "a".into(), None, 5);
    assert_eq!(m.source, "modrinth");
    assert_eq!(m.url, "https://modrinth.com/plugin/ess");
    let h = hangar_item("Maint".into(), None, "kennytv".into(), "Maintenance".into(), Some("i".into()), None);
    assert_eq!(h.source, "hangar");
    assert_eq!(h.slug, "kennytv/Maintenance");
    assert_eq!(h.url, "https://hangar.papermc.io/kennytv/Maintenance");
    assert_eq!(h.description, "");
    assert_eq!(h.author, "kennytv");
    assert_eq!(h.downloads, 0);
}

fn mf(name: &str, primary: bool) -> ModrinthFile {
    ModrinthFile { url: format!("https://cdn/{name}"), filename: name.to_string(), primary }
}

#[test]
fn modrinth_picks_the_latest_primary_jar() {
    let versions = vec![
        ModrinthVersion { files: vec![mf("old.jar", true)], date_published: "2023-01-01T00:00:00Z".into() },
        ModrinthVersion {
            files: vec![mf("sources.zip", true), mf("lib.jar", false), mf("Main.JAR", true)],
            date_published: "2024-05-01T00:00:00Z".into(),
        },
        ModrinthVersion { files: vec![mf("same-date.jar", true)], date_published: "2024-05-01T00:00:00Z".into() },
    ];
    let (name, url) = pick_modrinth_file("p", &versions).unwrap();
    assert_eq!(name, "Main.JAR");
    assert_eq!(url, "https://cdn/Main.JAR");
}

#[test]
fn modrinth_falls_back_to_any_jar_and_reports_errors() {
    let v = vec![ModrinthVersion { files: vec![mf("a.zip", true), mf("b.jar", false)], date_published: "1".into() }];
    assert_eq!(pick_modrinth_file("p", &v).unwrap().0, "b.jar");
    let none = vec![ModrinthVersion { files: vec![mf("a.zip", true)], date_published: "1".into() }];
    let e = pick_modrinth_file("p", &none).unwrap_err();
    assert!(matches!(e, MarketError::NoJar));
    assert_eq!(e.message(), "no .jar file in latest version");
    let e = pick_modrinth_file("slugx", &vec![]).unwrap_err();
    assert_eq!(e.message(), "no versions for slugx");
}

fn hd(file: Option<&str>, dl: Option<&str>, ext: Option<&str>) -> HangarDownload {
    HangarDownload {
        file_name: file.map(|s| s.to_string()),
        download_url: dl.map(|s| s.to_string()),
        external_url: ext.map(|s| s.to_string()),
    }
}

#[test]
fn hangar_picks_the_paper_download() {
    assert_eq!(hangar_project_slug("kennytv/Maintenance"), "Maintenance");
    assert_eq!(hangar_project_slug("Solo"), "Solo");
    let v = vec![HangarVersion {
        name: "4.2".into(),
        downloads: vec![
            ("VELOCITY".into(), hd(Some("v.jar"), Some("https://v"), None)),
            ("PAPER".into(), hd(Some("Maintenance.jar"), None, Some("https://ext/m"))),
        ],
    }];
    assert_eq!(pick_hangar_download("Maintenance", &v).unwrap(), ("Maintenance.jar".to_string(), "https://ext/m".to_string()));
    let v2 = vec![HangarVersion { name: "1.0 beta".into(), downloads: vec![("WATERFALL".into(), hd(None, None, None))] }];
    assert_eq!(
        pick_hangar_download("Proj", &v2).unwrap(),
        (
            "Proj-1.0 beta.jar".to_string(),
            "https://hangar.papermc.io/api/v1/projects/Proj/versions/1.0%20beta/PAPER/download".to_string()
        )
    );
    assert!(matches!(pick_hangar_download("p", &vec![]), Err(MarketError::NoVersions)));
    let empty = vec![HangarVersion { name: "1".into(), downloads: vec![] }];
    let e = pick_hangar_download("p", &empty).unwrap_err();
    assert!(matches!(e, MarketError::NoPaperDownload));
    assert_eq!(e.message(), "no Paper download");
}

#[test]
fn sources_and_merge() {
    assert_eq!(search_sources(None), (true, true));
    assert_eq!(search_sources(Some("all")), (true, true));
    assert_eq!(search_sources(Some("modrinth")), (true, false));
    assert_eq!(search_sources(Some("hangar")), (false, true));
    assert_eq!(search_sources(Some("other")), (false, false));
    let m = vec![
        modrinth_item("a".into(), "A".into(), "".into(), "".into(), None, 10),
        modrinth_item("b".into(), "B".into(), "".into(), "".into(), None, 50),
    ];
    let h = vec![hangar_item("C".into(), None, "o".into(), "c".into(), None, Some(10))];
    let r = merge_results(Some(m), Some(h));
    let slugs: Vec<&str> = r.iter().map(|x| x.slug.as_str()).collect();
    assert_eq!(slugs, vec!["b", "a", "o/c"]);
    assert!(merge_results(None, None).is_empty());
    assert_eq!(MarketError::EmptyQuery.message(), "empty query");
    assert_eq!(MarketError::UnknownSource.message(), "unknown source");
    assert_eq!(MarketError::NoVersions.message(), "no versions");
}
