use karere::account::{Account, AccountError, PermissionKind};
use karere::accounts::AccountManager;
use karere::coordinator::{title_counts_unread, Effect, SessionCoordinator};
use karere::migration::MigrationStep::{
    CopyCache, CopyData, CreateParents, Failed, Finished, FinishedWithoutCache, RemoveLegacyCache,
    RemoveLegacyData, RenameCache, RenameData,
};
use karere::migration::{DataDirEntry, LegacyMigration, MigrationStep};
use karere::permissions::PermissionAnswer;
use karere::stored::{restore_all, store_all, StoredAccount};

fn bare(id: &str) -> StoredAccount {
    StoredAccount {
        id: id.to_string(),
        name: "N".to_string(),
        created_at: 17,
        is_active: None,
        has_session: None,
        color: None,
        emoji: None,
        order: None,
        has_unread: None,
        zoom_level: None,
        notification_permission_asked: None,
        notification_permission_granted: None,
        microphone_permission_asked: None,
        microphone_permission_granted: None,
        camera_permission_asked: None,
        camera_permission_granted: None,
    }
}

fn show(e: &Effect) -> String {
    match e {
        Effect::CreateSession { account_id, data_dir, cache_dir, uri } => {
            assert_eq!(uri, "https://web.whatsapp.com");
            format!("create {} {} {}", account_id, data_dir, cache_dir)
        }
        Effect::ShowSession { account_id } => format!("show {}", account_id),
        Effect::HideSession { account_id } => format!("hide {}", account_id),
        Effect::DestroySession { account_id } => format!("destroy {}", account_id),
        Effect::RemoveDirectory { path } => format!("rmdir {}", path),
        Effect::WithdrawNotification { platform_id } => format!("withdraw {}", platform_id),
        Effect::ReplayClick { routing_id } => format!("replay {}", routing_id),
        Effect::ForgetNotification { platform_id } => format!("forget {}", platform_id),
    }
}

fn shown(effects: &[Effect]) -> Vec<String> {
    effects.iter().map(show).collect()
}

fn coordinator(ids: &[&str]) -> SessionCoordinator {
    let mut store = AccountManager::new("/d".to_string());
    for id in ids {
        store
            .add_account(Account::created_at(id.to_string(), id.to_string(), "#111111".to_string(), "e".to_string(), 5))
            .unwrap();
    }
    SessionCoordinator::new(store)
}

fn unread(c: &SessionCoordinator, id: &str) -> bool {
    c.store().get_accounts().iter().find(|a| a.id == id).unwrap().has_unread
}

fn active(c: &SessionCoordinator) -> String {
    c.active_account().unwrap().id
}

#[test]
fn an_entry_without_the_later_fields_reads_with_their_defaults() {
    let a = Account::from_stored(bare("old"));
    assert_eq!(a.id, "old");
    assert_eq!(a.name, "N");
    assert_eq!(a.created_at, 17);
    assert!(!a.is_active && !a.has_session && !a.has_unread);
    assert_eq!(a.color, "#3584e4");
    assert_eq!(a.emoji, "\u{1F4AC}");
    assert_eq!(a.order, 0);
    assert_eq!(a.zoom_level, 100);
    for kind in [PermissionKind::Notification, PermissionKind::Microphone, PermissionKind::Camera] {
        assert_eq!(a.permission(kind), (false, false));
    }
}

#[test]
fn what_is_written_is_read_back_field_for_field() {
    let mut a = Account::created_at("work".to_string(), "Work".to_string(), "#ff0000".to_string(), "W".to_string(), 99);
    a.is_active = true;
    a.has_session = true;
    a.order = -3;
    a.has_unread = true;
    a.zoom_level = 135;
    a.notification_permission_asked = true;
    a.microphone_permission_asked = true;
    a.microphone_permission_granted = true;
    a.camera_permission_granted = true;
    let b = Account::created_at("home".to_string(), "".to_string(), "".to_string(), "".to_string(), -1);
    let written = store_all(&vec![a.clone(), b.clone()]);
    assert_eq!(written.len(), 2);
    assert_eq!(written[0].zoom_level, Some(135));
    assert_eq!(written[0].color, Some("#ff0000".to_string()));
    assert_eq!(written[1].is_active, Some(false));
    assert_eq!(written[1].color, Some("".to_string()));
    let back = restore_all(written);
    assert_eq!(back.len(), 2);
    assert_eq!(format!("{:?}", back[0]), format!("{:?}", a));
    assert_eq!(format!("{:?}", back[1]), format!("{:?}", b));
    assert!(restore_all(Vec::new()).is_empty());
    let one = a.to_stored();
    assert_eq!(format!("{:?}", Account::from_stored(one)), format!("{:?}", a));
}

#[test]
fn entries_are_read_in_the_order_of_the_file() {
    let mut second = bare("b");
    second.order = Some(4);
    second.is_active = Some(true);
    second.color = Some("#000000".to_string());
    let list = restore_all(vec![bare("a"), second, bare("c")]);
    let ids: Vec<&str> = list.iter().map(|a| a.id.as_str()).collect();
    assert_eq!(ids, vec!["a", "b", "c"]);
    assert_eq!(list[1].order, 4);
    assert!(list[1].is_active);
    assert_eq!(list[1].color, "#000000");
    assert_eq!(list[2].color, "#3584e4");
}

#[test]
fn a_session_shows_in_a_directory_that_holds_something() {
    let m = AccountManager::new("/d".to_string());
    let entry = |name: &str, is_dir: bool, is_empty: bool| DataDirEntry { name: name.to_string(), is_dir, is_empty };
    assert!(!m.check_session_exists(&vec![]));
    assert!(!m.check_session_exists(&vec![entry("storage", true, true), entry("x.db", false, false)]));
    assert!(m.check_session_exists(&vec![entry("storage", true, true), entry("mediakeys", true, false)]));
    assert!(m.check_session_exists(&vec![entry("anything", true, false)]));
}

fn run(m: &mut LegacyMigration, outcomes: &[bool]) -> Vec<MigrationStep> {
    let mut steps = vec![m.step()];
    for ok in outcomes {
        m.advance(*ok);
        steps.push(m.step());
    }
    steps
}

#[test]
fn a_migration_renames_data_then_cache() {
    let store = AccountManager::new("/d".to_string());
    let mut m = LegacyMigration::begin(&store, "/old/data".to_string(), "/old/cache".to_string(), true);
    assert_eq!(m.targets(), ("/d/sessions/default/data".to_string(), "/d/sessions/default/cache".to_string()));
    assert_eq!(m.paths(), ("".to_string(), "".to_string()));
    assert!(!m.is_over());
    m.advance(true);
    assert_eq!(m.step(), RenameData);
    assert_eq!(m.paths(), ("/old/data".to_string(), "/d/sessions/default/data".to_string()));
    m.advance(true);
    assert_eq!(m.step(), RenameCache);
    assert_eq!(m.paths(), ("/old/cache".to_string(), "/d/sessions/default/cache".to_string()));
    m.advance(true);
    assert_eq!(m.step(), Finished);
    assert!(m.is_over());
    m.advance(false);
    assert_eq!(m.step(), Finished);
}

#[test]
fn a_migration_copies_what_cannot_be_renamed() {
    let store = AccountManager::new("/d".to_string());
    let begin = |cache: bool| LegacyMigration::begin(&store, "/old/data".to_string(), "/old/cache".to_string(), cache);
    assert_eq!(
        run(&mut begin(true), &[true, false, true, false, false, true, false]),
        vec![CreateParents, RenameData, CopyData, RemoveLegacyData, RenameCache, CopyCache, RemoveLegacyCache, Finished]
    );
    assert_eq!(run(&mut begin(false), &[true, true]), vec![CreateParents, RenameData, Finished]);
    assert_eq!(
        run(&mut begin(false), &[true, false, true, true]),
        vec![CreateParents, RenameData, CopyData, RemoveLegacyData, Finished]
    );
    let mut m = begin(true);
    m.advance(true);
    m.advance(false);
    m.advance(true);
    assert_eq!(m.step(), RemoveLegacyData);
    assert_eq!(m.paths(), ("/old/data".to_string(), "".to_string()));
}

#[test]
fn only_the_loss_of_data_fails_a_migration() {
    let store = AccountManager::new("/d".to_string());
    let begin = || LegacyMigration::begin(&store, "/old/data".to_string(), "/old/cache".to_string(), true);
    assert_eq!(run(&mut begin(), &[false, true]), vec![CreateParents, Failed, Failed]);
    assert_eq!(run(&mut begin(), &[true, false, false]), vec![CreateParents, RenameData, CopyData, Failed]);
    assert_eq!(
        run(&mut begin(), &[true, true, false, false, true]),
        vec![CreateParents, RenameData, RenameCache, CopyCache, FinishedWithoutCache, FinishedWithoutCache]
    );
    let mut m = begin();
    run(&mut m, &[true, true, false, false]);
    assert!(m.is_over());
}

#[test]
fn titles_with_a_leading_count_tell_of_unread_messages() {
    for title in ["(3) WhatsApp", "(12)", "(0) x", "(007)x"] {
        assert!(title_counts_unread(title), "{:?}", title);
    }
    for title in ["WhatsApp", "", "()", "( 3) x", "(3 ) x", "(a)", "3) x", "(3", " (3) x", "(3x)", "(\u{663})", "((3))", "(-1)"] {
        assert!(!title_counts_unread(title), "{:?}", title);
    }
}

#[test]
fn starting_creates_the_default_account_and_shows_it() {
    let mut c = SessionCoordinator::new(AccountManager::new("/d".to_string()));
    let effects = c.start(false);
    assert_eq!(
        shown(&effects),
        vec!["create default /d/sessions/default/data /d/sessions/default/cache", "show default"]
    );
    assert_eq!(active(&c), "default");
    assert_eq!(c.foreground_account(), Some("default".to_string()));
    assert_eq!(c.accounts_summary().len(), 1);
    assert_eq!(shown(&c.start(true)), vec!["show default"]);
    assert!(!c.active_account().unwrap().has_session);
    let mut legacy = SessionCoordinator::new(AccountManager::new("/d".to_string()));
    legacy.start(true);
    assert!(legacy.active_account().unwrap().has_session);
}

#[test]
fn switching_brings_a_session_forward_and_keeps_the_other_warm() {
    let mut c = coordinator(&["default", "work"]);
    c.start(false);
    assert_eq!(shown(&c.warm_account("work")), vec!["create work /d/sessions/work/data /d/sessions/work/cache"]);
    assert!(c.warm_account("work").is_empty());
    assert!(c.warm_account("nobody").is_empty());
    assert_eq!(c.foreground_account(), Some("default".to_string()));
    assert_eq!(shown(&c.switch_account("work")), vec!["hide default", "show work"]);
    assert_eq!(active(&c), "work");
    assert_eq!(c.foreground_account(), Some("work".to_string()));
    assert_eq!(shown(&c.switch_account("work")), vec!["show work"]);
    assert!(c.switch_account("nobody").is_empty());
    assert_eq!(active(&c), "work");
    assert_eq!(shown(&c.switch_account("default")), vec!["hide work", "show default"]);
}

#[test]
fn adding_gives_the_account_an_id_of_its_time() {
    let mut c = coordinator(&["default"]);
    let a = c.add_account_at("Work", "#ff0000", "W", 1_730_000_000).unwrap();
    assert_eq!(a.id, "account-1730000000");
    assert_eq!((a.name.as_str(), a.color.as_str(), a.emoji.as_str()), ("Work", "#ff0000", "W"));
    assert_eq!(a.order, 1);
    assert!(!a.is_active);
    assert_eq!(a.created_at, 1_730_000_000);
    assert_eq!(c.add_account_at("Other", "c", "e", 1_730_000_000).unwrap_err(), AccountError::DuplicateId);
    assert_eq!(c.add_account_at("Early", "c", "e", -5).unwrap().id, "account-0");
    assert_eq!(c.accounts_summary().len(), 3);
    let now = c.add_account("Now", "c", "e").unwrap();
    assert!(now.id.starts_with("account-1") || now.id.starts_with("account-2"));
    assert_eq!(now.id, format!("account-{}", now.created_at));
    assert!(c.knows(&now.id));
    assert!(c.foreground_account().is_none());
}

#[test]
fn removing_ends_the_session_and_asks_for_the_directory_to_go() {
    let mut c = coordinator(&["default", "work", "home"]);
    c.start(false);
    c.warm_account("home");
    c.switch_account("work");
    assert_eq!(
        shown(&c.remove_account("work").unwrap()),
        vec!["destroy work", "rmdir /d/sessions/work", "show default"]
    );
    assert_eq!(active(&c), "default");
    assert_eq!(c.foreground_account(), Some("default".to_string()));
    assert!(!c.knows("work"));
    assert_eq!(shown(&c.remove_account("home").unwrap()), vec!["destroy home", "rmdir /d/sessions/home"]);
    assert_eq!(shown(&c.remove_account("nobody").unwrap()), vec!["rmdir /d/sessions/nobody"]);
    assert_eq!(c.remove_account("default").unwrap_err(), AccountError::ProtectedAccount);
    assert_eq!(c.accounts_summary().len(), 1);
    assert_eq!(c.foreground_account(), Some("default".to_string()));
}

#[test]
fn a_removed_account_in_front_is_followed_by_a_new_session_if_need_be() {
    let mut c = coordinator(&["default", "work"]);
    assert_eq!(shown(&c.switch_account("work")), vec!["create work /d/sessions/work/data /d/sessions/work/cache", "show work"]);
    assert_eq!(
        shown(&c.remove_account("work").unwrap()),
        vec![
            "destroy work",
            "rmdir /d/sessions/work",
            "create default /d/sessions/default/data /d/sessions/default/cache",
            "show default"
        ]
    );
}

#[test]
fn moving_goes_through_to_the_registry() {
    let mut c = coordinator(&["default", "a", "b"]);
    c.reorder_account("b", -1);
    let order: Vec<String> = c.accounts_summary().into_iter().map(|s| s.0).collect();
    assert_eq!(order, vec!["default", "b", "a"]);
    c.reorder_account("default", 1);
    c.reorder_account("b", -1);
    let order: Vec<String> = c.accounts_summary().into_iter().map(|s| s.0).collect();
    assert_eq!(order, vec!["default", "b", "a"]);
}

#[test]
fn a_request_is_asked_once_and_answered_from_then_on() {
    let mut c = coordinator(&["default", "work"]);
    assert_eq!(c.on_permission_request("work", PermissionKind::Notification), PermissionAnswer::Ask);
    assert_eq!(c.on_permission_decided("work", PermissionKind::Notification, true), Ok(()));
    assert_eq!(c.on_permission_request("work", PermissionKind::Notification), PermissionAnswer::Allow);
    assert_eq!(c.on_permission_request("work", PermissionKind::Notification), PermissionAnswer::Allow);
    assert_eq!(c.on_permission_request("default", PermissionKind::Notification), PermissionAnswer::Ask);
    assert_eq!(c.on_permission_decided("work", PermissionKind::Camera, false), Ok(()));
    assert_eq!(c.on_permission_request("work", PermissionKind::Camera), PermissionAnswer::Deny);
    assert_eq!(c.on_permission_decided("nobody", PermissionKind::Camera, false), Err(AccountError::NotFound));
    assert_eq!(c.on_media_decided("default", true, true, true), Ok(()));
    assert_eq!(c.on_permission_request("default", PermissionKind::Microphone), PermissionAnswer::Allow);
    assert_eq!(c.on_permission_request("default", PermissionKind::Camera), PermissionAnswer::Allow);
    let reread = SessionCoordinator::new(AccountManager::with_accounts("/d".to_string(), c.store().get_accounts()));
    assert_eq!(reread.on_permission_request("work", PermissionKind::Notification), PermissionAnswer::Allow);
    assert_eq!(reread.on_permission_request("work", PermissionKind::Camera), PermissionAnswer::Deny);
}

#[test]
fn a_notification_for_a_background_account_is_routed_back() {
    let mut c = coordinator(&["default", "work"]);
    c.start(false);
    c.warm_account("work");
    let id = c.on_notification_raised("work", None, 1_730_000_123, true);
    assert_eq!(id, "work:msg-1730000123");
    assert!(id.starts_with("work:msg-173"));
    assert!(unread(&c, "work"));
    assert!(!unread(&c, "default"));
    assert!(c.on_notification_delivered("portal-1".to_string()).is_empty());
    assert_eq!(shown(&c.on_notification_clicked(&id)), vec!["hide default", "show work", format!("replay {}", id).as_str()]);
    assert_eq!(c.foreground_account(), Some("work".to_string()));
    assert_eq!(active(&c), "work");
    assert!(!unread(&c, "work"));
}

#[test]
fn a_notification_marks_unread_unless_the_user_looks_at_the_account() {
    let mut c = coordinator(&["default", "work"]);
    c.start(false);
    assert_eq!(c.on_notification_raised("default", Some("chat-1"), 0, true), "default:chat-1");
    assert!(!unread(&c, "default"));
    assert_eq!(c.on_notification_raised("default", Some("chat-2"), 0, false), "default:chat-2");
    assert!(unread(&c, "default"));
    assert_eq!(c.on_notification_raised("nobody", Some("t"), 0, false), "nobody:t");
    assert!(c.on_notification_clicked("nobody:t").is_empty());
    assert!(c.on_notification_clicked("no-colon").len() == 2);
    assert_eq!(c.foreground_account(), Some("default".to_string()));
}

#[test]
fn focus_withdraws_what_was_issued_and_clears_the_account_in_front() {
    let mut c = coordinator(&["default", "work"]);
    c.start(false);
    c.on_notification_raised("default", Some("a"), 0, false);
    c.on_notification_raised("work", Some("b"), 0, false);
    c.on_notification_delivered("n1".to_string());
    c.on_notification_delivered("n2".to_string());
    assert_eq!(shown(&c.on_window_focused()), vec!["withdraw n1", "withdraw n2"]);
    assert!(!unread(&c, "default"));
    assert!(unread(&c, "work"));
    assert!(c.on_window_focused().is_empty());
}

#[test]
fn the_title_sets_and_clears_the_unread_mark() {
    let mut c = coordinator(&["default"]);
    assert_eq!(c.on_title_changed("default", "(2) WhatsApp"), Ok(()));
    assert!(unread(&c, "default"));
    assert_eq!(c.on_title_changed("default", "WhatsApp"), Ok(()));
    assert!(!unread(&c, "default"));
    assert_eq!(c.on_title_changed("nobody", "(2) WhatsApp"), Err(AccountError::NotFound));
}

#[test]
fn zoom_goes_through_the_policy() {
    let mut c = coordinator(&["default", "work"]);
    assert_eq!(c.zoom_of("work"), 100);
    assert_eq!(c.set_zoom("work", 80), Ok(()));
    assert_eq!(c.zoom_of("work"), 80);
    c.apply_zoom_floor(110);
    assert_eq!((c.zoom_of("default"), c.zoom_of("work")), (110, 110));
    assert_eq!(c.set_zoom("work", 100), Ok(()));
    assert_eq!(c.zoom_of("work"), 110);
    c.disable_zoom_floor();
    assert_eq!(c.zoom_of("work"), 110);
    assert_eq!(c.set_zoom("work", 100), Ok(()));
    assert_eq!(c.zoom_of("work"), 100);
    assert_eq!(c.set_zoom("nobody", 100), Err(AccountError::NotFound));
}

#[test]
fn what_the_cap_forgets_is_let_go_of() {
    let mut c = coordinator(&["default"]);
    for i in 0..50 {
        assert!(c.on_notification_delivered(format!("n{}", i)).is_empty());
    }
    assert_eq!(shown(&c.on_notification_delivered("n50".to_string())), vec!["forget n0"]);
    assert_eq!(shown(&c.on_notification_delivered("n51".to_string())), vec!["forget n1"]);
    let withdrawn = shown(&c.on_window_focused());
    assert_eq!(withdrawn.len(), 50);
    assert_eq!(withdrawn[0], "withdraw n2");
    assert_eq!(withdrawn[49], "withdraw n51");
}

#[test]
fn every_session_belongs_to_an_account_whatever_happens() {
    let mut c = coordinator(&["default", "a", "b", "c"]);
    c.start(false);
    let steps: [(&str, &str); 14] = [
        ("warm", "a"), ("switch", "b"), ("remove", "b"), ("switch", "nobody"), ("warm", "nobody"),
        ("click", "c:tag"), ("remove", "c"), ("remove", "default"), ("click", "gone:tag"), ("switch", "a"),
        ("remove", "a"), ("click", "plain"), ("warm", "default"), ("remove", "nobody"),
    ];
    for (what, id) in steps {
        match what {
            "warm" => drop(c.warm_account(id)),
            "switch" => drop(c.switch_account(id)),
            "click" => drop(c.on_notification_clicked(id)),
            _ => drop(c.remove_account(id)),
        }
        let known: Vec<String> = c.accounts_summary().into_iter().map(|s| s.0).collect();
        let active: Vec<bool> = c.store().get_accounts().iter().map(|a| a.is_active).collect();
        assert_eq!(active.iter().filter(|x| **x).count(), 1);
        if let Some(front) = c.foreground_account() {
            assert!(known.contains(&front), "{} {}", what, id);
        }
        for gone in ["b", "c", "nobody", "gone"] {
            if !known.contains(&gone.to_string()) {
                assert!(c.warm_account(gone).is_empty());
                assert!(c.switch_account(gone).is_empty());
            }
        }
    }
    assert_eq!(c.accounts_summary().len(), 1);
    assert_eq!(c.foreground_account(), Some("default".to_string()));
}

#[test]
fn ids_that_the_coordinator_makes_decode_back() {
    let mut c = coordinator(&["default"]);
    let mut ids = vec!["default".to_string()];
    for stamp in [-7i64, 9, 10, 1_730_000_000, i64::MAX] {
        ids.push(c.add_account_at("N", "c", "e", stamp).unwrap().id);
    }
    assert_eq!(ids[1], "account-0");
    assert_eq!(ids[5], "account-9223372036854775807");
    assert_eq!(c.add_account_at("N", "c", "e", 0).unwrap_err(), AccountError::DuplicateId);
    ids.push(c.add_account("Now", "c", "e").unwrap().id);
    for id in ids {
        assert!(!id.contains(':'), "{}", id);
        for tag in [None, Some("chat:7"), Some("")] {
            let routed = c.on_notification_raised(&id, tag, 5, false);
            let (account, decoded_tag) = karere::notifications::NotificationRouter::decode(&routed);
            assert_eq!(account, id);
            if let Some(t) = tag {
                assert_eq!(decoded_tag, t);
            }
        }
    }
}

#[test]
fn a_new_account_is_refused_only_for_a_taken_id() {
    let mut empty = SessionCoordinator::new(AccountManager::new("/d".to_string()));
    assert!(empty.add_account("Work", "#ff0000", "W").is_ok());
    let mut c = coordinator(&["default", "work", "account", "account-x"]);
    assert!(c.add_account("Work", "#ff0000", "W").is_ok());
}
