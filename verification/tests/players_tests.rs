use craftmc::players::{classify_console_line, is_valid_name_pub, strip_log_prefix, PlayerEvent, Players};

#[test]
fn players_are_listed_by_name_once_each() {
    let mut p = Players::new();
    assert!(p.add_at("Zed", 3));
    assert!(p.add_at("Alex", 1));
    assert!(p.add_at("Steve", 2));
    assert!(!p.add_at("Alex", 9));
    let l = p.list();
    let names: Vec<&str> = l.iter().map(|x| x.name.as_str()).collect();
    assert_eq!(names, vec!["Alex", "Steve", "Zed"]);
    // A second join keeps the first join time.
    assert_eq!(l[0].joined_at, 1);
    assert!(p.contains("Steve"));
    assert!(!p.contains("steve"));
}

#[test]
fn remove_and_clear_report_changes() {
    let mut p = Players::new();
    assert!(!p.remove("Alex"));
    p.add_at("Alex", 1);
    p.add_at("Bob", 2);
    assert!(p.remove("Alex"));
    assert!(!p.contains("Alex"));
    assert!(p.contains("Bob"));
    assert!(p.clear());
    assert!(p.list().is_empty());
    assert!(!p.clear());
}

#[test]
fn add_stamps_now() {
    let mut p = Players::new();
    assert!(p.add("Notch"));
    let l = p.list();
    assert_eq!(l.len(), 1);
    assert!(l[0].joined_at > 0);
}

#[test]
fn log_prefix_is_stripped() {
    assert_eq!(strip_log_prefix("[12:34:56 INFO]: Steve joined the game"), "Steve joined the game");
    assert_eq!(strip_log_prefix("[12:34:56] [Server thread/INFO]: hello"), "hello");
    assert_eq!(strip_log_prefix("no prefix here"), "no prefix here");
    assert_eq!(strip_log_prefix("a]: b]: c"), "b]: c");
}

fn name_of(e: PlayerEvent) -> Option<(bool, String)> {
    match e {
        PlayerEvent::Join(n) => Some((true, n)),
        PlayerEvent::Leave(n) => Some((false, n)),
        _ => None,
    }
}

#[test]
fn console_lines_are_classified() {
    let j = classify_console_line("stdout", "[12:00:00 INFO]: Steve joined the game");
    assert_eq!(name_of(j), Some((true, "Steve".to_string())));
    let l = classify_console_line("stdout", "[12:00:00 INFO]: Alex_2 left the game");
    assert_eq!(name_of(l), Some((false, "Alex_2".to_string())));
    let lost = classify_console_line("stdout", "[12:00:00 INFO]: Herobrine lost connection: Disconnected");
    assert_eq!(name_of(lost), Some((false, "Herobrine".to_string())));
    assert!(matches!(classify_console_line("system", "Server exited with code 0"), PlayerEvent::Clear));
    assert!(matches!(classify_console_line("stdout", "[x]: Stopping the server"), PlayerEvent::Clear));
    assert!(matches!(classify_console_line("stderr", "[x]: stopping THE server now"), PlayerEvent::Clear));
    assert!(matches!(classify_console_line("system", "[x]: STOPPING THE SERVER"), PlayerEvent::Clear));
    assert!(matches!(classify_console_line("system", "Steve joined the game"), PlayerEvent::Nothing));
    // Invalid names are ignored.
    assert!(matches!(classify_console_line("stdout", "[i]: bad name! joined the game"), PlayerEvent::Nothing));
    assert!(matches!(classify_console_line("stdout", "[i]: hello world"), PlayerEvent::Nothing));
}

#[test]
fn player_names_are_checked() {
    assert!(is_valid_name_pub("Steve"));
    assert!(is_valid_name_pub("a_b_123"));
    assert!(is_valid_name_pub("abcdefghijklmnop"));
    assert!(!is_valid_name_pub("abcdefghijklmnopq"));
    assert!(!is_valid_name_pub(""));
    assert!(!is_valid_name_pub("bad-name"));
    assert!(!is_valid_name_pub("é"));
}

#[test]
fn events_are_applied_to_the_set() {
    let mut p = Players::new();
    assert!(p.apply(classify_console_line("stdout", "[i]: Steve joined the game")));
    assert!(p.apply(classify_console_line("stdout", "[i]: Alex joined the game")));
    assert!(!p.apply(classify_console_line("stdout", "[i]: Steve joined the game")));
    assert!(!p.apply(classify_console_line("stdout", "[i]: hello")));
    assert!(p.apply(classify_console_line("stdout", "[i]: Steve left the game")));
    let names: Vec<String> = p.list().into_iter().map(|x| x.name).collect();
    assert_eq!(names, vec!["Alex"]);
    assert!(p.apply(classify_console_line("stdout", "[i]: Stopping the server")));
    assert!(p.list().is_empty());
    assert!(!p.apply(classify_console_line("system", "Server exited: Ok(0)")));
}

#[test]
fn join_and_leave_lines_win_over_the_stop_rule() {
    let e = classify_console_line("stdout", "[i]: Stopping the server joined the game");
    assert!(matches!(e, PlayerEvent::Nothing));
    let e = classify_console_line("stdout", "[i]: Alex lost connection: Stopping the server");
    assert!(matches!(e, PlayerEvent::Clear));
}
