use karere::account::{
    Account, AccountError, PermissionKind, DEFAULT_ACCOUNT_ID, DEFAULT_COLOR, DEFAULT_EMOJI,
    DEFAULT_ZOOM,
};
use karere::accounts::AccountManager;

fn account(id: &str) -> Account {
    Account::created_at(id.to_string(), id.to_string(), "#3584e4".to_string(), "x".to_string(), 1_700_000_000)
}

fn registry(ids: &[&str]) -> AccountManager {
    let mut m = AccountManager::new("/data/karere/accounts".to_string());
    for id in ids {
        assert_eq!(m.add_account(account(id)), Ok(()));
    }
    m
}

fn ids(list: &[Account]) -> Vec<String> {
    list.iter().map(|a| a.id.clone()).collect()
}

fn active_ids(m: &AccountManager) -> Vec<String> {
    m.get_accounts().iter().filter(|a| a.is_active).map(|a| a.id.clone()).collect()
}

#[test]
fn a_new_account_has_the_defaults() {
    let a = Account::new("work".to_string(), "Work".to_string(), DEFAULT_COLOR.to_string(), DEFAULT_EMOJI.to_string());
    assert_eq!(a.id, "work");
    assert_eq!(a.name, "Work");
    assert_eq!(a.color, "#3584e4");
    assert_eq!(a.emoji, "\u{1F4AC}");
    assert!(!a.is_active);
    assert!(!a.has_session);
    assert!(!a.has_unread);
    assert_eq!(a.order, 0);
    assert_eq!(a.zoom_level, 100);
    assert_eq!(a.zoom_level, DEFAULT_ZOOM);
    assert!(a.created_at > 1_600_000_000);
    for kind in [PermissionKind::Notification, PermissionKind::Microphone, PermissionKind::Camera] {
        assert_eq!(a.permission(kind), (false, false));
    }
}

#[test]
fn an_empty_registry_lists_nothing() {
    let m = AccountManager::new("/d".to_string());
    assert_eq!(m.get_accounts().len(), 0);
    assert_eq!(m.get_accounts_sorted().len(), 0);
    assert_eq!(m.get_account_count(), 0);
    assert!(m.get_active_account().is_none());
    assert!(m.get_accounts_summary().is_empty());
}

#[test]
fn first_account_is_activated_and_later_ones_are_not() {
    let mut m = AccountManager::new("/tmp/k".to_string());
    assert_eq!(m.add_account(account(DEFAULT_ACCOUNT_ID)), Ok(()));
    assert_eq!(m.add_account(account("work")), Ok(()));
    let all = m.get_accounts();
    assert_eq!(all.len(), 2);
    assert!(all[0].is_active);
    assert_eq!(all[0].order, 0);
    assert!(!all[1].is_active);
    assert_eq!(all[1].order, 1);
    assert_eq!(m.get_account_count(), 2);
}

#[test]
fn an_account_added_as_active_to_a_registry_with_accounts_is_not_active() {
    let mut m = registry(&["default"]);
    let mut a = account("work");
    a.is_active = true;
    a.order = 40;
    assert_eq!(m.add_account(a), Ok(()));
    assert_eq!(active_ids(&m), vec!["default"]);
    assert_eq!(m.get_accounts()[1].order, 1);
}

#[test]
fn a_taken_id_is_refused_and_nothing_changes() {
    let mut m = registry(&["default", "work"]);
    let mut again = account("work");
    again.name = "Other".to_string();
    assert_eq!(m.add_account(again), Err(AccountError::DuplicateId));
    let all = m.get_accounts();
    assert_eq!(ids(&all), vec!["default", "work"]);
    assert_eq!(all[1].name, "work");
}

#[test]
fn the_order_of_a_new_account_is_one_after_the_greatest() {
    let mut m = AccountManager::new("/d".to_string());
    let mut a = account("a");
    a.order = 7;
    m.add_account(a).unwrap();
    assert_eq!(m.get_accounts()[0].order, 0);
    let mut list = m.get_accounts();
    list[0].order = 41;
    let mut m = AccountManager::with_accounts("/d".to_string(), list);
    m.add_account(account("b")).unwrap();
    assert_eq!(m.get_accounts()[1].order, 42);
    let mut list = m.get_accounts();
    list[0].order = -9;
    list[1].order = -5;
    let mut m = AccountManager::with_accounts("/d".to_string(), list);
    m.add_account(account("n")).unwrap();
    assert_eq!(m.get_accounts()[2].order, -4);
    let mut list = m.get_accounts();
    list.truncate(2);
    list[0].order = i32::MAX;
    let mut m = AccountManager::with_accounts("/d".to_string(), list);
    m.add_account(account("c")).unwrap();
    assert_eq!(m.get_accounts()[2].order, i32::MAX);
}

#[test]
fn the_default_account_cannot_be_removed() {
    let mut m = registry(&["default", "work"]);
    assert_eq!(m.remove_account("default"), Err(AccountError::ProtectedAccount));
    assert_eq!(ids(&m.get_accounts()), vec!["default", "work"]);
    assert_eq!(active_ids(&m), vec!["default"]);
    let mut empty = AccountManager::new("/d".to_string());
    assert_eq!(empty.remove_account("default"), Err(AccountError::ProtectedAccount));
    assert_eq!(empty.get_account_count(), 0);
}

#[test]
fn removing_the_active_account_activates_the_first_shown() {
    let mut m = registry(&["default", "work", "home"]);
    m.set_active_account("work");
    assert_eq!(active_ids(&m), vec!["work"]);
    assert_eq!(m.remove_account("work"), Ok(()));
    assert_eq!(ids(&m.get_accounts()), vec!["default", "home"]);
    assert_eq!(active_ids(&m), vec!["default"]);
}

#[test]
fn removing_an_inactive_account_keeps_the_active_one() {
    let mut m = registry(&["default", "work", "home"]);
    m.set_active_account("home");
    assert_eq!(m.remove_account("work"), Ok(()));
    assert_eq!(active_ids(&m), vec!["home"]);
}

#[test]
fn removing_an_unknown_account_succeeds_and_changes_nothing() {
    let mut m = registry(&["default", "work"]);
    assert_eq!(m.remove_account("nobody"), Ok(()));
    assert_eq!(ids(&m.get_accounts()), vec!["default", "work"]);
    assert_eq!(active_ids(&m), vec!["default"]);
}

#[test]
fn without_the_default_account_the_lowest_order_is_activated() {
    let mut a = account("a");
    a.order = 5;
    a.is_active = true;
    let mut b = account("b");
    b.order = 3;
    let mut c = account("c");
    c.order = 3;
    let mut m = AccountManager::with_accounts("/d".to_string(), vec![a, b, c]);
    assert_eq!(m.remove_account("a"), Ok(()));
    assert_eq!(active_ids(&m), vec!["b"]);
}

#[test]
fn exactly_one_account_is_active_after_any_adds_and_removes() {
    let mut m = AccountManager::new("/d".to_string());
    let steps: [(&str, bool); 12] = [
        ("default", true), ("a", true), ("b", true), ("a", false), ("c", true), ("default", false),
        ("b", false), ("b", true), ("c", false), ("b", false), ("d", true), ("d", false),
    ];
    for (id, add) in steps {
        if add {
            let _ = m.add_account(account(id));
        } else {
            let _ = m.remove_account(id);
        }
        assert!(m.get_account_count() >= 1);
        assert_eq!(active_ids(&m).len(), 1);
        let mut seen = ids(&m.get_accounts());
        seen.sort();
        seen.dedup();
        assert_eq!(seen.len(), m.get_account_count());
    }
}

#[test]
fn choosing_an_account_makes_it_the_only_active_one() {
    let mut m = registry(&["default", "work", "home"]);
    m.set_active_account("home");
    assert_eq!(active_ids(&m), vec!["home"]);
    assert_eq!(m.get_active_account().unwrap().id, "home");
}

#[test]
fn choosing_an_unknown_account_changes_nothing() {
    let mut m = registry(&["default", "work"]);
    m.set_active_account("nobody");
    assert_eq!(active_ids(&m), vec!["default"]);
}

#[test]
fn the_first_account_stands_in_where_none_is_marked_active() {
    let m = AccountManager::with_accounts("/d".to_string(), vec![account("x"), account("y")]);
    assert_eq!(m.get_active_account().unwrap().id, "x");
}

#[test]
fn name_and_identity_can_be_changed() {
    let mut m = registry(&["default", "work"]);
    assert_eq!(m.update_account_name("work", "Office"), Ok(()));
    assert_eq!(m.get_accounts()[1].name, "Office");
    assert_eq!(m.update_account_identity("work", "Job", "J", "#ff0000"), Ok(()));
    let a = &m.get_accounts()[1];
    assert_eq!((a.name.as_str(), a.emoji.as_str(), a.color.as_str()), ("Job", "J", "#ff0000"));
    assert_eq!(m.get_accounts()[0].name, "default");
    assert_eq!(m.update_account_name("nobody", "N"), Err(AccountError::NotFound));
    assert_eq!(m.update_account_identity("nobody", "N", "e", "c"), Err(AccountError::NotFound));
}

#[test]
fn permissions_are_kept_per_account_and_kind() {
    let mut m = registry(&["default", "work"]);
    assert_eq!(m.get_account_permission("work", PermissionKind::Microphone), (false, false));
    assert_eq!(m.set_account_permission("work", PermissionKind::Microphone, true, false), Ok(()));
    assert_eq!(m.set_account_permission("work", PermissionKind::Camera, true, true), Ok(()));
    assert_eq!(m.get_account_permission("work", PermissionKind::Microphone), (true, false));
    assert_eq!(m.get_account_permission("work", PermissionKind::Camera), (true, true));
    assert_eq!(m.get_account_permission("work", PermissionKind::Notification), (false, false));
    assert_eq!(m.get_account_permission("default", PermissionKind::Camera), (false, false));
    assert_eq!(m.get_account_permission("nobody", PermissionKind::Camera), (false, false));
    assert_eq!(
        m.set_account_permission("nobody", PermissionKind::Camera, true, true),
        Err(AccountError::NotFound)
    );
    let a = &m.get_accounts()[1];
    assert!(a.microphone_permission_asked && !a.microphone_permission_granted);
    assert!(a.camera_permission_asked && a.camera_permission_granted);
    assert!(!a.notification_permission_asked && !a.notification_permission_granted);
}

#[test]
fn zoom_and_unread_and_session_marks() {
    let mut m = registry(&["default", "work"]);
    assert_eq!(m.get_account_zoom("work"), 100);
    assert_eq!(m.get_account_zoom("nobody"), 100);
    assert_eq!(m.set_account_zoom("work", 130), Ok(()));
    assert_eq!(m.get_account_zoom("work"), 130);
    assert_eq!(m.get_account_zoom("default"), 100);
    assert_eq!(m.set_account_zoom("nobody", 130), Err(AccountError::NotFound));
    assert_eq!(m.set_account_unread("work", true), Ok(()));
    assert!(m.get_accounts()[1].has_unread);
    assert_eq!(m.set_account_unread("work", false), Ok(()));
    assert!(!m.get_accounts()[1].has_unread);
    assert_eq!(m.set_account_unread("nobody", true), Err(AccountError::NotFound));
    m.update_session_state("work", true);
    assert!(m.get_accounts()[1].has_session);
    m.update_session_state("nobody", true);
    assert!(!m.get_accounts()[0].has_session);
}

#[test]
fn the_default_account_is_shown_first_whatever_its_order() {
    let mut d = account("default");
    d.order = 9;
    let mut a = account("a");
    a.order = 2;
    let mut b = account("b");
    b.order = 1;
    let mut c = account("c");
    c.order = 2;
    let m = AccountManager::with_accounts("/d".to_string(), vec![a, d, b, c]);
    assert_eq!(ids(&m.get_accounts_sorted()), vec!["default", "b", "a", "c"]);
    assert_eq!(ids(&m.get_accounts()), vec!["a", "default", "b", "c"]);
    let summary = m.get_accounts_summary();
    assert_eq!(summary.len(), 4);
    assert_eq!(summary[0], ("default".to_string(), "default".to_string(), "x".to_string(), false));
    assert_eq!(summary[1].0, "b");
}

#[test]
fn moving_exchanges_display_orders_with_the_neighbour() {
    let mut m = registry(&["default", "a", "b", "c"]);
    m.reorder_account("b", -1);
    assert_eq!(ids(&m.get_accounts_sorted()), vec!["default", "b", "a", "c"]);
    assert_eq!(ids(&m.get_accounts()), vec!["default", "a", "b", "c"]);
    let orders: Vec<i32> = m.get_accounts().iter().map(|a| a.order).collect();
    assert_eq!(orders, vec![0, 2, 1, 3]);
    m.reorder_account("b", 1);
    assert_eq!(ids(&m.get_accounts_sorted()), vec!["default", "a", "b", "c"]);
    m.reorder_account("b", 5);
    assert_eq!(ids(&m.get_accounts_sorted()), vec!["default", "a", "c", "b"]);
}

#[test]
fn moving_stops_at_the_ends_and_at_the_default_account() {
    let mut m = registry(&["default", "a", "b"]);
    let before: Vec<i32> = m.get_accounts().iter().map(|a| a.order).collect();
    m.reorder_account("default", 1);
    m.reorder_account("default", -1);
    m.reorder_account("a", -1);
    m.reorder_account("b", 1);
    m.reorder_account("nobody", 1);
    let after: Vec<i32> = m.get_accounts().iter().map(|a| a.order).collect();
    assert_eq!(before, after);
    assert_eq!(ids(&m.get_accounts_sorted()), vec!["default", "a", "b"]);
}

#[test]
fn session_directories_lie_below_the_root() {
    let m = AccountManager::new("/data/karere/accounts".to_string());
    assert_eq!(m.config_dir(), "/data/karere/accounts");
    assert_eq!(m.session_root_dir(), "/data/karere/accounts/sessions");
    assert_eq!(m.session_dir_for("work"), "/data/karere/accounts/sessions/work");
    assert_eq!(m.data_dir_for("work"), "/data/karere/accounts/sessions/work/data");
    assert_eq!(m.cache_dir_for("work"), "/data/karere/accounts/sessions/work/cache");
}

#[test]
fn the_first_start_creates_the_default_account() {
    let mut m = AccountManager::new("/d".to_string());
    let a = m.ensure_default_account(false);
    assert_eq!(a.id, "default");
    assert_eq!(a.name, "Primary Account");
    assert_eq!(a.color, DEFAULT_COLOR);
    assert_eq!(a.emoji, DEFAULT_EMOJI);
    assert!(a.is_active);
    assert!(!a.has_session);
    assert_eq!(ids(&m.get_accounts()), vec!["default"]);
    assert!(m.get_accounts()[0].is_active);
    assert_eq!(ids(&m.get_accounts_sorted()), vec!["default"]);
    let again = m.ensure_default_account(true);
    assert_eq!(again.id, "default");
    assert!(!again.has_session);
    assert_eq!(m.get_account_count(), 1);
}

#[test]
fn a_legacy_session_is_taken_over_by_the_default_account() {
    let mut m = AccountManager::new("/d".to_string());
    let a = m.ensure_default_account(true);
    assert!(a.has_session);
    assert!(m.get_accounts()[0].has_session);
}

#[test]
fn a_registry_with_accounts_hands_out_the_one_in_use() {
    let mut m = registry(&["default", "work"]);
    m.set_active_account("work");
    assert_eq!(m.ensure_default_account(true).id, "work");
    assert_eq!(m.get_account_count(), 2);
}

#[test]
fn errors_have_a_sentence_for_the_user() {
    assert_eq!(AccountError::DuplicateId.message(), "Account already exists");
    assert_eq!(AccountError::ProtectedAccount.message(), "The default account cannot be removed");
    assert_eq!(AccountError::NotFound.message(), "Account not found");
}

#[test]
fn first_start_then_a_second_account_then_its_removal() {
    let mut m = AccountManager::new("/d".to_string());
    let first = m.ensure_default_account(false);
    assert_eq!(first.id, "default");
    assert!(first.is_active);
    assert_eq!(m.add_account(account("work")), Ok(()));
    let work = m.get_accounts().into_iter().find(|a| a.id == "work").unwrap();
    assert_eq!(work.order, 1);
    assert!(!work.is_active);
    assert_eq!(m.remove_account("work"), Ok(()));
    assert_eq!(ids(&m.get_accounts()), vec!["default"]);
    assert!(m.get_accounts()[0].is_active);
}

#[test]
fn the_shown_list_is_in_order_even_with_ids_held_twice() {
    let mut list = Vec::new();
    for (id, order) in [("b", 4), ("default", 9), ("a", -2), ("b", 1), ("default", 3), ("c", 1)] {
        let mut a = account(id);
        a.order = order;
        list.push(a);
    }
    let m = AccountManager::with_accounts("/d".to_string(), list);
    let shown: Vec<(String, i32)> = m.get_accounts_sorted().into_iter().map(|a| (a.id, a.order)).collect();
    let expected: Vec<(String, i32)> = [("default", 3), ("default", 9), ("a", -2), ("b", 1), ("c", 1), ("b", 4)]
        .iter()
        .map(|(id, order)| (id.to_string(), *order))
        .collect();
    assert_eq!(shown, expected);
}

#[test]
fn down_then_up_leaves_distinct_display_orders_as_they_were() {
    let mut m = registry(&["default", "a", "b", "c"]);
    let before: Vec<i32> = m.get_accounts().iter().map(|a| a.order).collect();
    for id in ["a", "b"] {
        m.reorder_account(id, 1);
        assert_ne!(m.get_accounts().iter().map(|a| a.order).collect::<Vec<i32>>(), before);
        m.reorder_account(id, -1);
        assert_eq!(m.get_accounts().iter().map(|a| a.order).collect::<Vec<i32>>(), before);
    }
    for id in ["b", "c"] {
        m.reorder_account(id, -1);
        m.reorder_account(id, 1);
        assert_eq!(m.get_accounts().iter().map(|a| a.order).collect::<Vec<i32>>(), before);
    }
}

#[test]
fn with_a_shared_display_order_a_third_account_may_come_between() {
    let mut list = Vec::new();
    for (id, order) in [("c", 2), ("a", 1), ("b", 1)] {
        let mut a = account(id);
        a.order = order;
        list.push(a);
    }
    let mut m = AccountManager::with_accounts("/d".to_string(), list);
    assert_eq!(ids(&m.get_accounts_sorted()), vec!["a", "b", "c"]);
    m.reorder_account("b", 1);
    assert_eq!(ids(&m.get_accounts_sorted()), vec!["c", "a", "b"]);
    m.reorder_account("b", -1);
    assert_eq!(ids(&m.get_accounts_sorted()), vec!["c", "b", "a"]);
}
