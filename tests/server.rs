use wahoo::server::{
    error_page, locale_routes, request_locale, root_locale, ErrorPage,
    changed_paths, json_string_list, notification, template_rooted, ContentHashes, FileChange,
    LiveReload, Phase, WatchAction, WatchEvent, Watcher,
};

fn change(path: &str, hash: Option<u64>) -> FileChange {
    FileChange { path: path.to_string(), hash }
}

#[test]
fn rooted_paths() {
    assert_eq!(template_rooted("src/templates/index.html"), Some("index.html".to_string()));
    assert_eq!(template_rooted("style.css"), Some("style.css".to_string()));
    assert_eq!(template_rooted("templates/a/templates/b"), None);
}

#[test]
fn identical_content_is_not_a_change() {
    let mut hashes = ContentHashes::new();
    let first = changed_paths(&mut hashes, &vec![change("src/templates/index.html", Some(7))]);
    assert_eq!(first, vec!["index.html".to_string()]);
    let again = changed_paths(&mut hashes, &vec![change("src/templates/index.html", Some(7))]);
    assert!(again.is_empty());
    let edited = changed_paths(&mut hashes, &vec![change("src/templates/index.html", Some(8))]);
    assert_eq!(edited, vec!["index.html".to_string()]);
}

#[test]
fn unreadable_file_is_skipped() {
    let mut hashes = ContentHashes::new();
    let out = changed_paths(&mut hashes, &vec![change("a.css", None), change("b.css", Some(1))]);
    assert_eq!(out, vec!["b.css".to_string()]);
}

#[test]
fn insert_returns_previous_hash() {
    let mut hashes = ContentHashes::new();
    assert_eq!(hashes.insert("a", 1), None);
    assert_eq!(hashes.insert("a", 2), Some(1));
    assert_eq!(hashes.insert("b", 3), None);
    assert_eq!(hashes.insert("a", 4), Some(2));
}

#[test]
fn rebuild_then_notify() {
    let mut w = Watcher::new();
    let a = w.step(WatchEvent::Changes(vec![change("src/templates/index.html", Some(1))]));
    assert!(matches!(a, WatchAction::Rebuild));
    assert!(matches!(w.phase, Phase::Rebuilding(_)));
    let b = w.step(WatchEvent::RebuildDone);
    match b {
        WatchAction::Notify { files, rebuild } => {
            assert_eq!(files, vec!["index.html".to_string()]);
            assert!(!rebuild);
        }
        _ => panic!("expected a notification"),
    }
    assert!(matches!(w.phase, Phase::Idle));
}

#[test]
fn no_notification_before_rebuild_is_done() {
    let mut w = Watcher::new();
    assert!(matches!(w.step(WatchEvent::RebuildDone), WatchAction::Wait));
    let a = w.step(WatchEvent::Changes(vec![change("x.css", Some(1))]));
    assert!(matches!(a, WatchAction::Rebuild));
    let b = w.step(WatchEvent::Changes(vec![change("y.css", Some(2))]));
    assert!(matches!(b, WatchAction::Wait));
    match w.step(WatchEvent::RebuildDone) {
        WatchAction::Notify { files, rebuild } => {
            assert_eq!(files, vec!["x.css".to_string()]);
            assert!(rebuild);
        }
        _ => panic!("expected a notification"),
    }
    match w.step(WatchEvent::RebuildDone) {
        WatchAction::Notify { files, rebuild } => {
            assert_eq!(files, vec!["y.css".to_string()]);
            assert!(!rebuild);
        }
        _ => panic!("expected a notification"),
    }
}

#[test]
fn failed_rebuild_sends_nothing() {
    let mut w = Watcher::new();
    w.step(WatchEvent::Changes(vec![change("x.css", Some(1))]));
    assert!(matches!(w.step(WatchEvent::RebuildFailed), WatchAction::Wait));
    assert!(matches!(w.phase, Phase::Idle));
}

#[test]
fn identical_save_neither_rebuilds_nor_notifies() {
    let mut w = Watcher::new();
    w.step(WatchEvent::Changes(vec![change("x.css", Some(1))]));
    w.step(WatchEvent::RebuildDone);
    let a = w.step(WatchEvent::Changes(vec![change("x.css", Some(1))]));
    assert!(matches!(a, WatchAction::Wait));
    assert!(matches!(w.phase, Phase::Idle));
}

#[test]
fn message_framing() {
    assert_eq!(
        notification("7", "update", "[]"),
        r#"{"id":"7","method":"update","params":[]}"#
    );
    assert_eq!(
        json_string_list(&vec!["a.html".to_string(), "b\"c".to_string()]),
        r#"["a.html","b\"c"]"#
    );
    assert_eq!(json_string_list(&vec![]), "[]");
    assert_eq!(
        LiveReload::update_message_with_id("1", &vec!["index.html".to_string()]),
        r#"{"id":"1","method":"update","params":["index.html"]}"#
    );
}

#[test]
fn session_id_is_stable_within_a_channel() {
    let live = LiveReload::new();
    let id = live.session_id();
    assert!(!id.is_empty());
    let expected = format!("\"params\":\"{id}\"}}");
    let m1 = live.session_message();
    let m2 = live.session_message();
    assert!(m1.ends_with(&expected));
    assert!(m2.ends_with(&expected));
    assert_eq!(
        live.session_message_with_id("9"),
        format!("{{\"id\":\"9\",\"method\":\"session\",\"params\":\"{id}\"}}")
    );
    let other = LiveReload::new();
    assert_ne!(other.session_id(), id);
}

#[test]
fn locale_routing() {
    let langs = vec!["fr".to_string(), "en".to_string()];
    assert_eq!(root_locale(&langs), Some("en".to_string()));
    assert_eq!(root_locale(&vec!["de".to_string(), "fr".to_string()]), Some("de".to_string()));
    assert_eq!(root_locale(&vec![]), None);
    assert_eq!(request_locale("fr", &langs), Some("fr".to_string()));
    assert_eq!(request_locale("img", &langs), None);
    assert_eq!(
        locale_routes("fr"),
        ("/fr".to_string(), "/fr/".to_string(), "fr/index.html".to_string())
    );
    assert!(matches!(error_page(&None), ErrorPage::Builtin));
    assert!(matches!(error_page(&Some("404.html".to_string())), ErrorPage::File(f) if f == "404.html"));
    assert!(matches!(error_page(&Some("<h1>gone</h1>".to_string())), ErrorPage::Inline(t) if t == "<h1>gone</h1>"));
}

#[test]
fn control_characters_are_escaped() {
    assert_eq!(
        json_string_list(&vec!["a\u{1}\t\\/".to_string()]),
        "[\"a\\u0001\\t\\\\/\"]"
    );
}
