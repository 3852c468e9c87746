use craftmc::messages::{Message, MessageStore, MessageType, MAX_MESSAGES};

#[test]
fn pages_most_recent_first() {
    let mut st = MessageStore::new();
    for i in 0..120 {
        st.add_at(format!("p{i}"), MessageType::Chat, format!("m{i}"), format!("id{i}"), i);
    }
    let p1 = st.get_page(1);
    assert_eq!(p1.total_count, 120);
    assert_eq!(p1.total_pages, 3);
    assert_eq!(p1.per_page, 50);
    assert_eq!(p1.page, 1);
    assert_eq!(p1.messages.len(), 50);
    assert_eq!(p1.messages[0].content, "m119");
    assert_eq!(p1.messages[49].content, "m70");
    let p3 = st.get_page(3);
    assert_eq!(p3.messages.len(), 20);
    assert_eq!(p3.messages[19].content, "m0");
    // Out of range pages are brought into range.
    assert_eq!(st.get_page(0).page, 1);
    assert_eq!(st.get_page(99).page, 3);
    assert_eq!(st.get_page(99).messages[0].content, "m19");
}

#[test]
fn empty_log_has_one_empty_page() {
    let st = MessageStore::new();
    let p = st.get_page(5);
    assert_eq!(p.total_count, 0);
    assert_eq!(p.total_pages, 0);
    assert_eq!(p.page, 1);
    assert!(p.messages.is_empty());
    assert!(st.list_all().is_empty());
}

#[test]
fn log_keeps_the_newest_ten_thousand() {
    let mut st = MessageStore::new();
    for i in 0..(MAX_MESSAGES as i64 + 3) {
        st.add_at(String::new(), MessageType::Join, i.to_string(), String::new(), i);
    }
    let all = st.list_all();
    assert_eq!(all.len(), MAX_MESSAGES);
    assert_eq!(all[0].content, (MAX_MESSAGES + 2).to_string());
    assert_eq!(all[all.len() - 1].content, "3");
}

#[test]
fn add_stamps_and_returns_the_message() {
    let mut st = MessageStore::new();
    let m = st.add("Steve".to_string(), MessageType::Leave, "left".to_string());
    assert_eq!(m.player_name, "Steve");
    assert_eq!(m.message_type, MessageType::Leave);
    assert_eq!(m.id.len(), 36);
    for (i, c) in m.id.chars().enumerate() {
        if [8, 13, 18, 23].contains(&i) {
            assert_eq!(c, '-');
        } else {
            assert!(c.is_ascii_hexdigit() && !c.is_ascii_uppercase());
        }
    }
    let all = st.list_all();
    assert_eq!(all.len(), 1);
    assert_eq!(all[0].id, m.id);
}

#[test]
fn loaded_messages_keep_their_order() {
    let v = vec![
        Message { id: "a".into(), player_name: "x".into(), message_type: MessageType::Chat, content: "1".into(), timestamp: 1 },
        Message { id: "b".into(), player_name: "y".into(), message_type: MessageType::Chat, content: "2".into(), timestamp: 2 },
    ];
    let st = MessageStore::from_messages(v);
    let all = st.list_all();
    assert_eq!(all[0].id, "b");
    assert_eq!(all[1].id, "a");
    let saved = st.to_vec();
    assert_eq!(saved[0].id, "a");
}
