use pathfinder::documents::{
    did_change_params, did_close_params, did_open_params, is_newer, DocumentManager, SyncAction,
};
use pathfinder::json::JsonValue;

#[test]
fn is_newer_is_strict() {
    assert!(is_newer(2, 1));
    assert!(!is_newer(1, 1));
    assert!(!is_newer(0, 1));
}

#[test]
fn first_access_opens_at_version_one() {
    let m = DocumentManager::new();
    assert_eq!(m.sync_action("file:///a.rs", 100), SyncAction::Open { version: 1 });
}

#[test]
fn unmodified_file_needs_nothing() {
    let mut m = DocumentManager::new();
    let action = m.sync_action("file:///a.rs", 100);
    assert_eq!(action, SyncAction::Open { version: 1 });
    m.commit("file:///a.rs", 1, 100);
    // second access, timestamp unchanged: exactly no announcement
    assert_eq!(m.sync_action("file:///a.rs", 100), SyncAction::UpToDate);
    // even an older timestamp is considered current
    assert_eq!(m.sync_action("file:///a.rs", 99), SyncAction::UpToDate);
}

#[test]
fn modified_file_gets_next_version() {
    let mut m = DocumentManager::new();
    m.commit("file:///a.rs", 1, 100);
    assert_eq!(m.sync_action("file:///a.rs", 180), SyncAction::Change { version: 2 });
    m.commit("file:///a.rs", 2, 180);
    assert_eq!(m.sync_action("file:///a.rs", 180), SyncAction::UpToDate);
    assert_eq!(m.sync_action("file:///a.rs", 300), SyncAction::Change { version: 3 });
}

#[test]
fn uris_are_tracked_independently() {
    let mut m = DocumentManager::new();
    m.commit("file:///a.rs", 1, 100);
    assert_eq!(m.sync_action("file:///b.rs", 100), SyncAction::Open { version: 1 });
    m.commit("file:///b.rs", 1, 100);
    assert_eq!(m.sync_action("file:///a.rs", 150), SyncAction::Change { version: 2 });
    assert_eq!(m.sync_action("file:///b.rs", 100), SyncAction::UpToDate);
}

#[test]
fn version_of_reports_the_record() {
    let mut m = DocumentManager::new();
    assert_eq!(m.version_of("file:///a.rs"), None);
    m.commit("file:///a.rs", 1, 100);
    assert_eq!(m.version_of("file:///a.rs"), Some(1));
    m.commit("file:///a.rs", 2, 200);
    assert_eq!(m.version_of("file:///a.rs"), Some(2));
}

#[test]
fn close_all_returns_every_uri_and_clears() {
    let mut m = DocumentManager::new();
    m.commit("file:///a.rs", 1, 100);
    m.commit("file:///b.rs", 1, 100);
    let uris = m.close_all();
    assert_eq!(uris, vec!["file:///a.rs".to_string(), "file:///b.rs".to_string()]);
    assert_eq!(m.sync_action("file:///a.rs", 100), SyncAction::Open { version: 1 });
}

#[test]
fn open_announcement_carries_everything() {
    let p = did_open_params("file:///a.rs", "rust", 1, "fn main() {}");
    match p {
        JsonValue::Object(f) => {
            assert_eq!(f[0].0, "textDocument");
            match &f[0].1 {
                JsonValue::Object(d) => {
                    assert!(matches!(&d[0].1, JsonValue::Str(u) if u == "file:///a.rs"));
                    assert!(matches!(&d[1].1, JsonValue::Str(l) if l == "rust"));
                    assert!(matches!(d[2].1, JsonValue::Int(1)));
                    assert!(matches!(&d[3].1, JsonValue::Str(t) if t == "fn main() {}"));
                }
                _ => panic!("textDocument is an object"),
            }
        }
        _ => panic!("params are an object"),
    }
}

#[test]
fn change_announcement_replaces_whole_text() {
    let p = did_change_params("file:///a.rs", 2, "new text");
    match p {
        JsonValue::Object(f) => {
            assert_eq!(f[0].0, "textDocument");
            assert_eq!(f[1].0, "contentChanges");
            match &f[1].1 {
                JsonValue::Array(cs) => {
                    assert_eq!(cs.len(), 1);
                    match &cs[0] {
                        JsonValue::Object(c) => {
                            assert_eq!(c[0].0, "text");
                            assert!(matches!(&c[0].1, JsonValue::Str(t) if t == "new text"));
                        }
                        _ => panic!("the one change is an object"),
                    }
                }
                _ => panic!("contentChanges is a list"),
            }
        }
        _ => panic!("params are an object"),
    }
}

#[test]
fn close_announcement_names_the_uri() {
    let p = did_close_params("file:///a.rs");
    match p {
        JsonValue::Object(f) => match &f[0].1 {
            JsonValue::Object(d) => {
                assert!(matches!(&d[0].1, JsonValue::Str(u) if u == "file:///a.rs"))
            }
            _ => panic!("textDocument is an object"),
        },
        _ => panic!("params are an object"),
    }
}
