use karere::account::{Account, AccountError, PermissionKind};
use karere::accounts::AccountManager;
use karere::notifications::{NotificationRouter, ISSUED_CAP};
use karere::permissions::{PermissionAnswer, PermissionLedger, PermissionState};
use karere::sessions::{SessionPool, StorageDirs};
use karere::spellcheck::match_locale_to_dictionary;
use karere::zoom::ZoomPolicy;

fn store(ids: &[&str]) -> AccountManager {
    let mut m = AccountManager::new("/d".to_string());
    for id in ids {
        let a = Account::created_at(id.to_string(), id.to_string(), "#000000".to_string(), "e".to_string(), 1);
        m.add_account(a).unwrap();
    }
    m
}

fn dirs(id: &str) -> StorageDirs {
    StorageDirs { data: format!("/d/sessions/{}/data", id), cache: format!("/d/sessions/{}/cache", id) }
}

fn strings(list: &[&str]) -> Vec<String> {
    list.iter().map(|s| s.to_string()).collect()
}

#[test]
fn routing_ids_name_account_and_tag() {
    assert_eq!(NotificationRouter::make_routing_id("work", "chat-7"), "work:chat-7");
    assert_eq!(NotificationRouter::make_routing_id("work", ""), "work:");
    assert_eq!(NotificationRouter::make_routing_id("", "t"), ":t");
}

#[test]
fn decoding_splits_at_the_first_colon() {
    assert_eq!(NotificationRouter::decode("work:chat-7"), ("work".to_string(), "chat-7".to_string()));
    assert_eq!(NotificationRouter::decode("work:a:b"), ("work".to_string(), "a:b".to_string()));
    assert_eq!(NotificationRouter::decode(":t"), ("".to_string(), "t".to_string()));
    assert_eq!(NotificationRouter::decode("work:"), ("work".to_string(), "".to_string()));
}

#[test]
fn an_id_without_colon_belongs_to_the_default_account() {
    assert_eq!(NotificationRouter::decode("legacy-id"), ("default".to_string(), "legacy-id".to_string()));
    assert_eq!(NotificationRouter::decode(""), ("default".to_string(), "".to_string()));
}

#[test]
fn decoding_undoes_encoding() {
    for (a, t) in [("work", "msg-1"), ("default", "x:y"), ("h\u{e9}", "\u{1F4AC}:z"), ("a", "")] {
        let id = NotificationRouter::make_routing_id(a, t);
        assert_eq!(NotificationRouter::decode(&id), (a.to_string(), t.to_string()));
        let r = NotificationRouter::new();
        assert_eq!(r.on_click(&id), (a.to_string(), t.to_string()));
    }
}

#[test]
fn made_up_tags_carry_a_growing_stamp() {
    let mut r = NotificationRouter::new();
    assert_eq!(r.next_tag(1_730_000_000), "msg-1730000000");
    assert_eq!(r.next_tag(1_730_000_000), "msg-1730000001");
    assert_eq!(r.next_tag(5), "msg-1730000002");
    assert_eq!(r.next_tag(1_730_000_100), "msg-1730000100");
    let mut z = NotificationRouter::new();
    assert_eq!(z.next_tag(0), "msg-1");
    assert_eq!(z.next_tag(u64::MAX), "msg-18446744073709551615");
    assert_eq!(z.next_tag(7), "msg-18446744073709551615");
}

#[test]
fn a_notification_keeps_its_own_tag() {
    let mut r = NotificationRouter::new();
    assert_eq!(r.route("work", Some("chat-7"), 99), "work:chat-7");
    assert_eq!(r.route("work", None, 1_730_000_000), "work:msg-1730000000");
    assert_eq!(r.route("work", Some("chat-8"), 99), "work:chat-8");
    assert_eq!(r.route("home", None, 3), "home:msg-1730000001");
}

#[test]
fn issued_ids_are_handed_out_once_oldest_first() {
    let mut r = NotificationRouter::new();
    assert_eq!(r.pending(), 0);
    assert!(r.withdraw_all().is_empty());
    r.track_issued("a".to_string());
    r.track_issued("b".to_string());
    r.track_issued("a".to_string());
    assert_eq!(r.pending(), 3);
    assert_eq!(r.withdraw_all(), strings(&["a", "b", "a"]));
    assert_eq!(r.pending(), 0);
    assert!(r.withdraw_all().is_empty());
}

#[test]
fn of_more_than_fifty_issued_ids_the_oldest_are_forgotten() {
    assert_eq!(ISSUED_CAP, 50);
    let mut r = NotificationRouter::new();
    for i in 0..50 {
        assert!(r.track_issued(format!("n{}", i)).is_empty());
    }
    assert_eq!(r.pending(), 50);
    assert_eq!(r.track_issued("n50".to_string()), strings(&["n0"]));
    assert_eq!(r.track_issued("n51".to_string()), strings(&["n1"]));
    assert_eq!(r.pending(), 50);
    let all = r.withdraw_all();
    assert_eq!(all.len(), 50);
    assert_eq!(all[0], "n2");
    assert_eq!(all[49], "n51");
}

#[test]
fn the_ledger_starts_unknown_and_remembers_decisions() {
    let mut s = store(&["default", "work"]);
    assert_eq!(PermissionLedger::check(&s, "work", PermissionKind::Notification), PermissionState::Unknown);
    assert_eq!(PermissionLedger::answer(&s, "work", PermissionKind::Notification), PermissionAnswer::Ask);
    assert_eq!(PermissionLedger::resolve(&mut s, "work", PermissionKind::Notification, true), Ok(()));
    for _ in 0..3 {
        assert_eq!(PermissionLedger::check(&s, "work", PermissionKind::Notification), PermissionState::Granted);
        assert_eq!(PermissionLedger::answer(&s, "work", PermissionKind::Notification), PermissionAnswer::Allow);
    }
    assert_eq!(PermissionLedger::check(&s, "default", PermissionKind::Notification), PermissionState::Unknown);
    assert_eq!(PermissionLedger::check(&s, "work", PermissionKind::Camera), PermissionState::Unknown);
    assert_eq!(PermissionLedger::resolve(&mut s, "work", PermissionKind::Camera, false), Ok(()));
    assert_eq!(PermissionLedger::check(&s, "work", PermissionKind::Camera), PermissionState::Denied);
    assert_eq!(PermissionLedger::answer(&s, "work", PermissionKind::Camera), PermissionAnswer::Deny);
    assert_eq!(PermissionLedger::check(&s, "nobody", PermissionKind::Camera), PermissionState::Unknown);
    assert_eq!(
        PermissionLedger::resolve(&mut s, "nobody", PermissionKind::Camera, true),
        Err(AccountError::NotFound)
    );
}

#[test]
fn a_grant_survives_other_changes_of_the_registry() {
    let mut s = store(&["default", "work", "home"]);
    PermissionLedger::resolve(&mut s, "work", PermissionKind::Microphone, true).unwrap();
    s.add_account(Account::created_at("x".to_string(), "x".to_string(), "c".to_string(), "e".to_string(), 2)).unwrap();
    s.set_active_account("home");
    s.reorder_account("work", 1);
    s.remove_account("home").unwrap();
    s.set_account_zoom("work", 150).unwrap();
    s.update_account_identity("work", "W", "e", "c").unwrap();
    assert_eq!(PermissionLedger::check(&s, "work", PermissionKind::Microphone), PermissionState::Granted);
    let again = AccountManager::with_accounts(s.config_dir(), s.get_accounts());
    assert_eq!(PermissionLedger::check(&again, "work", PermissionKind::Microphone), PermissionState::Granted);
}

#[test]
fn camera_and_microphone_granted_together_resolve_both() {
    assert_eq!(PermissionLedger::media_permission(true, true), Some(PermissionKind::Camera));
    assert_eq!(PermissionLedger::media_permission(false, true), Some(PermissionKind::Camera));
    assert_eq!(PermissionLedger::media_permission(true, false), Some(PermissionKind::Microphone));
    assert_eq!(PermissionLedger::media_permission(false, false), None);
    let mut s = store(&["default"]);
    assert_eq!(PermissionLedger::resolve_media(&mut s, "default", true, true, true), Ok(()));
    assert_eq!(PermissionLedger::check(&s, "default", PermissionKind::Camera), PermissionState::Granted);
    assert_eq!(PermissionLedger::check(&s, "default", PermissionKind::Microphone), PermissionState::Granted);
    let mut s = store(&["default"]);
    assert_eq!(PermissionLedger::resolve_media(&mut s, "default", true, true, false), Ok(()));
    assert_eq!(PermissionLedger::check(&s, "default", PermissionKind::Camera), PermissionState::Denied);
    assert_eq!(PermissionLedger::check(&s, "default", PermissionKind::Microphone), PermissionState::Unknown);
    let mut s = store(&["default"]);
    assert_eq!(PermissionLedger::resolve_media(&mut s, "default", true, false, true), Ok(()));
    assert_eq!(PermissionLedger::check(&s, "default", PermissionKind::Microphone), PermissionState::Granted);
    assert_eq!(PermissionLedger::check(&s, "default", PermissionKind::Camera), PermissionState::Unknown);
    assert_eq!(PermissionLedger::resolve_media(&mut s, "default", false, false, true), Ok(()));
    assert_eq!(PermissionLedger::resolve_media(&mut s, "nobody", false, false, true), Ok(()));
    assert_eq!(PermissionLedger::resolve_media(&mut s, "nobody", true, false, true), Err(AccountError::NotFound));
}

#[test]
fn a_floor_raises_every_account_and_holds_afterwards() {
    let mut s = store(&["default", "work", "home"]);
    s.set_account_zoom("work", 150).unwrap();
    s.set_account_zoom("home", 80).unwrap();
    let mut z = ZoomPolicy::new();
    assert_eq!(z.floor(), None);
    z.apply_floor(&mut s, 120);
    assert_eq!(z.floor(), Some(120));
    assert_eq!(z.get(&s, "default"), 120);
    assert_eq!(z.get(&s, "work"), 150);
    assert_eq!(z.get(&s, "home"), 120);
    assert_eq!(z.set(&mut s, "work", 110), Ok(()));
    assert_eq!(z.get(&s, "work"), 120);
    assert_eq!(z.set(&mut s, "work", 170), Ok(()));
    assert_eq!(z.get(&s, "work"), 170);
    z.apply_floor(&mut s, 160);
    assert_eq!(z.get(&s, "default"), 160);
    assert_eq!(z.get(&s, "work"), 170);
    z.disable_floor();
    assert_eq!(z.floor(), None);
    assert_eq!(z.get(&s, "default"), 160);
    assert_eq!(z.set(&mut s, "default", 90), Ok(()));
    assert_eq!(z.get(&s, "default"), 90);
    assert_eq!(z.set(&mut s, "nobody", 90), Err(AccountError::NotFound));
    assert_eq!(z.get(&s, "nobody"), 100);
}

#[test]
fn zoom_steps() {
    let mut s = store(&["default"]);
    let z = ZoomPolicy::new();
    z.zoom_in(&mut s, "default").unwrap();
    assert_eq!(z.get(&s, "default"), 110);
    z.zoom_out(&mut s, "default").unwrap();
    z.zoom_out(&mut s, "default").unwrap();
    assert_eq!(z.get(&s, "default"), 90);
    z.set(&mut s, "default", 30).unwrap();
    z.zoom_out(&mut s, "default").unwrap();
    assert_eq!(z.get(&s, "default"), 20);
    z.zoom_out(&mut s, "default").unwrap();
    assert_eq!(z.get(&s, "default"), 20);
    z.set(&mut s, "default", u32::MAX - 3).unwrap();
    z.zoom_in(&mut s, "default").unwrap();
    assert_eq!(z.get(&s, "default"), u32::MAX - 3);
    z.zoom_reset(&mut s, "default").unwrap();
    assert_eq!(z.get(&s, "default"), 100);
    assert_eq!(z.zoom_in(&mut s, "nobody"), Err(AccountError::NotFound));
    let mut floor = ZoomPolicy::new();
    floor.apply_floor(&mut s, 100);
    floor.zoom_out(&mut s, "default").unwrap();
    assert_eq!(floor.get(&s, "default"), 100);
}

#[test]
fn the_pool_makes_a_session_once_and_keeps_it() {
    let mut p = SessionPool::new();
    assert_eq!(p.len(), 0);
    assert!(p.foreground().is_none());
    let c = p.get_or_create("default", dirs("default"), true);
    assert!(c.created);
    assert!(c.demoted.is_none());
    assert_eq!(c.session.account_id, "default");
    assert_eq!(c.session.data_dir, "/d/sessions/default/data");
    assert_eq!(c.session.cache_dir, "/d/sessions/default/cache");
    assert!(c.session.foreground);
    let again = p.get_or_create("default", dirs("elsewhere"), false);
    assert!(!again.created);
    assert!(again.session.foreground);
    assert_eq!(again.session.data_dir, "/d/sessions/default/data");
    assert_eq!(p.len(), 1);
    assert_eq!(p.foreground(), Some("default".to_string()));
}

#[test]
fn switching_demotes_the_session_in_front_and_destroys_none() {
    let mut p = SessionPool::new();
    p.switch("default", dirs("default"));
    let warm = p.get_or_create("home", dirs("home"), false);
    assert!(warm.created && !warm.session.foreground && warm.demoted.is_none());
    assert_eq!(p.foreground(), Some("default".to_string()));
    let c = p.switch("work", dirs("work"));
    assert!(c.created);
    assert_eq!(c.demoted, Some("default".to_string()));
    assert_eq!(p.foreground(), Some("work".to_string()));
    assert_eq!(p.len(), 3);
    assert!(p.contains("default") && p.contains("home") && p.contains("work"));
    assert!(!p.get("default").unwrap().foreground);
    let same = p.switch("work", dirs("work"));
    assert!(!same.created);
    assert!(same.demoted.is_none());
    assert_eq!(p.foreground(), Some("work".to_string()));
    let back = p.switch("default", dirs("default"));
    assert!(!back.created);
    assert_eq!(back.demoted, Some("work".to_string()));
    assert!(p.get("work").is_some());
    assert!(!p.get("work").unwrap().foreground);
}

#[test]
fn evicting_ends_one_session_only() {
    let mut p = SessionPool::new();
    p.switch("default", dirs("default"));
    p.switch("work", dirs("work"));
    let gone = p.evict("work").unwrap();
    assert_eq!(gone.account_id, "work");
    assert!(gone.foreground);
    assert!(!p.contains("work"));
    assert!(p.contains("default"));
    assert!(p.foreground().is_none());
    assert!(p.evict("work").is_none());
    assert!(p.get("work").is_none());
    assert_eq!(p.len(), 1);
}

#[test]
fn a_locale_finds_its_dictionary() {
    let dicts = strings(&["de_DE", "en_GB", "en_US", "fr_FR"]);
    assert_eq!(match_locale_to_dictionary("en_US.UTF-8", &dicts), Some("en_US".to_string()));
    assert_eq!(match_locale_to_dictionary("fr_FR", &dicts), Some("fr_FR".to_string()));
    assert_eq!(match_locale_to_dictionary("en_AU.UTF-8", &dicts), Some("en_GB".to_string()));
    assert_eq!(match_locale_to_dictionary("de_AT.ISO-8859-1", &dicts), Some("de_DE".to_string()));
    assert_eq!(match_locale_to_dictionary("pt_BR.UTF-8", &dicts), None);
    assert_eq!(match_locale_to_dictionary("en", &dicts), None);
    assert_eq!(match_locale_to_dictionary("C", &dicts), None);
    assert_eq!(match_locale_to_dictionary("", &dicts), None);
    assert_eq!(match_locale_to_dictionary("en_US.UTF-8", &[]), None);
    assert_eq!(match_locale_to_dictionary("_US", &dicts), Some("de_DE".to_string()));
    assert_eq!(match_locale_to_dictionary("en", &strings(&["en"])), Some("en".to_string()));
    assert_eq!(match_locale_to_dictionary(".UTF-8", &strings(&["", "en"])), Some("".to_string()));
}
