use octoterm::session::manager::{session_name, SessionTable};

#[test]
fn sessions_are_listed_in_id_order_and_ids_are_not_reused() {
    let mut t: SessionTable<&str> = SessionTable::new();
    let a = t.take_id();
    t.insert(a, "a");
    let b = t.take_id();
    t.insert(b, "b");
    assert_eq!((a, b), (1, 2));
    assert_eq!(t.list(), vec![&"a", &"b"]);
    assert_eq!(t.remove(a), Some("a"));
    assert_eq!(t.remove(a), None);
    assert_eq!(t.get(a), None);
    assert_eq!(t.get(b), Some(&"b"));
    let c = t.take_id();
    assert_eq!(c, 3);
    t.insert(c, "c");
    assert_eq!(t.list(), vec![&"b", &"c"]);
}

#[test]
fn a_failed_start_still_spends_its_id() {
    let mut t: SessionTable<u8> = SessionTable::new();
    let _lost = t.take_id();
    assert_eq!(t.take_id(), 2);
    assert!(t.list().is_empty());
}

#[test]
fn unnamed_sessions_are_named_after_their_id() {
    assert_eq!(session_name(None, 7), "octoterm-7");
    assert_eq!(session_name(Some("work".into()), 7), "work");
}
