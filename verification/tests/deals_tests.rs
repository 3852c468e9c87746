use craftmc::deals::{short_id, Deal, DealError, DealStore, Rejection, Signature};

fn s(x: &str) -> String {
    x.to_string()
}

fn parties(xs: &[&str]) -> Vec<String> {
    xs.iter().map(|x| x.to_string()).collect()
}

fn msg(r: Result<craftmc::deals::DealView, DealError>) -> String {
    match r {
        Ok(_) => panic!("expected an error"),
        Err(e) => e.message(),
    }
}

#[test]
fn create_validates_fields() {
    let mut st = DealStore::new();
    assert_eq!(msg(st.create_at(s("   "), s(""), parties(&["Alex"]), None, s("id1"), 1)), "title required");
    assert_eq!(msg(st.create_at("x".repeat(201), s(""), parties(&["Alex"]), None, s("id1"), 1)), "title too long");
    assert_eq!(msg(st.create_at(s("t"), "b".repeat(16001), parties(&["Alex"]), None, s("id1"), 1)), "body too long (16 KB max)");
    assert_eq!(msg(st.create_at(s("t"), s(""), parties(&["  ", ""]), None, s("id1"), 1)), "at least one party required");
    let many: Vec<String> = (0..33).map(|i| format!("p{i}")).collect();
    assert_eq!(msg(st.create_at(s("t"), s(""), many, None, s("id1"), 1)), "too many parties (32 max)");
    assert_eq!(
        msg(st.create_at(s("t"), s(""), parties(&["Alex", "bad name", "x-y"]), None, s("id1"), 1)),
        "invalid party name: bad name"
    );
    assert_eq!(
        msg(st.create_at(s("t"), s(""), parties(&["abcdefghijklmnopq"]), None, s("id1"), 1)),
        "invalid party name: abcdefghijklmnopq"
    );
    assert!(st.list().is_empty());
}

#[test]
fn create_cleans_fields() {
    let mut st = DealStore::new();
    let v = st
        .create_at(s("  Trade  "), s("10 diamonds"), parties(&[" Alex ", "", "Steve"]), Some(s("  admin ")), s("abc12345"), 7)
        .unwrap();
    assert_eq!(v.deal.id, "abc12345");
    assert_eq!(v.deal.title, "Trade");
    assert_eq!(v.deal.body, "10 diamonds");
    assert_eq!(v.deal.parties, parties(&["Alex", "Steve"]));
    assert_eq!(v.deal.created_at, 7);
    assert_eq!(v.deal.created_by, Some(s("admin")));
    assert_eq!(v.status, "pending");
    assert_eq!(v.remaining, parties(&["Alex", "Steve"]));
    let w = st.create_at(s("x"), s(""), parties(&["A"]), Some(s("   ")), s("other"), 8).unwrap();
    assert_eq!(w.deal.created_by, None);
    assert!(st.get("abc12345").is_some());
    assert!(st.get("nope").is_none());
}

#[test]
fn signing_flow() {
    let mut st = DealStore::new();
    st.create_at(s("t"), s(""), parties(&["Alex", "Steve"]), None, s("d1"), 1).unwrap();
    assert_eq!(msg(st.approve_at("d1", "  ", 2)), "name required");
    assert_eq!(msg(st.approve_at("zz", "Alex", 2)), "deal not found");
    assert_eq!(msg(st.approve_at("d1", "Herobrine", 2)), "'Herobrine' is not a party to this deal");
    let v = st.approve_at("d1", "alex", 2).unwrap();
    assert_eq!(v.status, "partial");
    assert_eq!(v.remaining, parties(&["Steve"]));
    assert_eq!(v.deal.signatures.len(), 1);
    assert_eq!(v.deal.signatures[0].name, "alex");
    assert_eq!(v.deal.signatures[0].signed_at, 2);
    assert_eq!(msg(st.approve_at("d1", "ALEX", 3)), "'ALEX' has already signed");
    let v = st.approve_at("d1", "Steve", 4).unwrap();
    assert_eq!(v.status, "signed");
    assert!(v.remaining.is_empty());
}

#[test]
fn rejection_flow() {
    let mut st = DealStore::new();
    st.create_at(s("t"), s(""), parties(&["Alex", "Steve"]), None, s("d1"), 1).unwrap();
    let v = st.reject_at("d1", "Steve", Some(s("too expensive")), 5).unwrap();
    assert_eq!(v.status, "rejected");
    assert_eq!(v.remaining, parties(&["Alex"]));
    assert_eq!(v.deal.rejections[0].reason, Some(s("too expensive")));
    assert_eq!(msg(st.reject_at("d1", "steve", None, 6)), "'steve' has already rejected");
    assert_eq!(msg(st.approve_at("d1", "Steve", 6)), "'Steve' has already rejected");
    // A later signature does not undo the rejection.
    let v = st.approve_at("d1", "Alex", 7).unwrap();
    assert_eq!(v.status, "rejected");
    assert!(v.remaining.is_empty());
    assert_eq!(msg(st.reject_at("d1", "", None, 6)), "name required");
    assert_eq!(msg(st.reject_at("d2", "Alex", None, 6)), "deal not found");
    assert_eq!(msg(st.reject_at("d1", "Notch", None, 6)), "'Notch' is not a party to this deal");
}

#[test]
fn list_is_newest_first_and_delete_removes() {
    let mut st = DealStore::new();
    st.create_at(s("a"), s(""), parties(&["A"]), None, s("a"), 10).unwrap();
    st.create_at(s("b"), s(""), parties(&["A"]), None, s("b"), 30).unwrap();
    st.create_at(s("c"), s(""), parties(&["A"]), None, s("c"), 20).unwrap();
    let ids: Vec<String> = st.list().into_iter().map(|v| v.deal.id).collect();
    assert_eq!(ids, vec!["b", "c", "a"]);
    assert!(st.delete("c"));
    assert!(!st.delete("c"));
    let ids: Vec<String> = st.list().into_iter().map(|v| v.deal.id).collect();
    assert_eq!(ids, vec!["b", "a"]);
    assert_eq!(st.to_vec().len(), 2);
}

#[test]
fn same_id_replaces() {
    let mut st = DealStore::new();
    st.create_at(s("first"), s(""), parties(&["A"]), None, s("x"), 1).unwrap();
    st.create_at(s("second"), s(""), parties(&["A"]), None, s("x"), 2).unwrap();
    let l = st.list();
    assert_eq!(l.len(), 1);
    assert_eq!(l[0].deal.title, "second");
}

#[test]
fn store_from_saved_deals() {
    let d = Deal {
        id: s("k1"),
        title: s("t"),
        body: s(""),
        parties: parties(&["A", "B"]),
        signatures: vec![Signature { name: s("a"), signed_at: 1 }, Signature { name: s("B"), signed_at: 2 }],
        rejections: Vec::<Rejection>::new(),
        created_at: 0,
        created_by: None,
    };
    assert_eq!(d.status(), "signed");
    let st = DealStore::from_deals(vec![d]);
    assert_eq!(st.get("k1").unwrap().status, "signed");
}

#[test]
fn status_of_deal_without_parties_is_not_signed() {
    let d = Deal {
        id: s("k"),
        title: s("t"),
        body: s(""),
        parties: Vec::new(),
        signatures: Vec::new(),
        rejections: Vec::new(),
        created_at: 0,
        created_by: None,
    };
    assert_eq!(d.status(), "pending");
    assert!(d.remaining().is_empty());
    assert_eq!(d.view().status, "pending");
}

#[test]
fn short_ids_are_eight_hex_digits() {
    for _ in 0..20 {
        let id = short_id();
        assert_eq!(id.len(), 8);
        assert!(id.chars().all(|c| c.is_ascii_hexdigit() && !c.is_ascii_uppercase()));
    }
    assert_ne!(short_id(), short_id());
}

#[test]
fn create_with_fresh_id() {
    let mut st = DealStore::new();
    let v = st.create(s("t"), s(""), parties(&["A"]), None).unwrap();
    assert_eq!(v.deal.id.len(), 8);
    let a = st.approve(&v.deal.id, "A").unwrap();
    assert_eq!(a.status, "signed");
    let mut st2 = DealStore::new();
    let v2 = st2.create(s("t"), s(""), parties(&["A", "B"]), None).unwrap();
    let r = st2.reject(&v2.deal.id, "B", None).unwrap();
    assert_eq!(r.status, "rejected");
}

#[test]
fn loading_keeps_the_later_of_two_deals_with_one_id() {
    let mk = |title: &str, at: i64| Deal {
        id: s("dup"),
        title: s(title),
        body: s(""),
        parties: parties(&["A"]),
        signatures: Vec::new(),
        rejections: Vec::new(),
        created_at: at,
        created_by: None,
    };
    let st = DealStore::from_deals(vec![mk("older", 1), mk("newer", 2)]);
    assert_eq!(st.to_vec().len(), 1);
    assert_eq!(st.get("dup").unwrap().deal.title, "newer");
}

#[test]
fn deals_made_at_the_same_time_keep_their_order() {
    let mut st = DealStore::new();
    st.create_at(s("t"), s(""), parties(&["A"]), None, s("p"), 5).unwrap();
    st.create_at(s("t"), s(""), parties(&["A"]), None, s("q"), 5).unwrap();
    st.create_at(s("t"), s(""), parties(&["A"]), None, s("r"), 9).unwrap();
    let ids: Vec<String> = st.list().into_iter().map(|v| v.deal.id).collect();
    assert_eq!(ids, vec!["r", "p", "q"]);
}
