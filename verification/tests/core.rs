use fswatch::event::{classify_event, RawEvent, SemanticEvent};
use fswatch::path::path_is_under;
use fswatch::registry::{Registry, RegistryError};
use fswatch::supervisor::{
    dispatch_event, handle_unwatch, watch_commit, watch_precheck, ErrorKind, Response,
};

fn bytes(s: &str) -> Vec<u8> {
    s.as_bytes().to_vec()
}

#[test]
fn path_equal_is_under() {
    assert!(path_is_under(&bytes("/a"), &bytes("/a")));
}

#[test]
fn path_child_is_under() {
    assert!(path_is_under(&bytes("/a"), &bytes("/a/x")));
    assert!(path_is_under(&bytes("/a"), &bytes("/a/x/y")));
}

#[test]
fn path_sibling_with_same_prefix_is_not_under() {
    assert!(!path_is_under(&bytes("/a"), &bytes("/ab")));
    assert!(!path_is_under(&bytes("/a"), &bytes("/ab/x")));
}

#[test]
fn path_outside_is_not_under() {
    assert!(!path_is_under(&bytes("/a"), &bytes("/b/x")));
    assert!(!path_is_under(&bytes("/a/x"), &bytes("/a")));
}

#[test]
fn path_filesystem_root_covers_everything() {
    assert!(path_is_under(&bytes("/"), &bytes("/a")));
    assert!(path_is_under(&bytes("/"), &bytes("/a/x")));
}

#[test]
fn path_backslash_separators_compare_the_same_way() {
    assert!(path_is_under(&bytes("C:\\a"), &bytes("C:\\a\\x")));
    assert!(!path_is_under(&bytes("C:\\a"), &bytes("C:\\ab")));
}

#[test]
fn classify_create_under_root() {
    let out = classify_event(3, &bytes("/a"), &RawEvent::Create { path: bytes("/a/f") });
    assert_eq!(out, vec![SemanticEvent::Created { watch_id: 3, path: bytes("/a/f") }]);
}

#[test]
fn classify_write_under_root() {
    let out = classify_event(3, &bytes("/a"), &RawEvent::Write { path: bytes("/a/f") });
    assert_eq!(out, vec![SemanticEvent::Modified { watch_id: 3, path: bytes("/a/f") }]);
}

#[test]
fn classify_remove_under_root() {
    let out = classify_event(3, &bytes("/a"), &RawEvent::Remove { path: bytes("/a/f") });
    assert_eq!(out, vec![SemanticEvent::Deleted { watch_id: 3, path: bytes("/a/f") }]);
}

#[test]
fn classify_create_outside_root_is_silent() {
    let out = classify_event(3, &bytes("/a"), &RawEvent::Create { path: bytes("/b/f") });
    assert!(out.is_empty());
}

#[test]
fn classify_rename_leaving_subtree_is_a_deletion() {
    let out = classify_event(
        1,
        &bytes("/a"),
        &RawEvent::Rename { old_path: bytes("/a/x"), new_path: bytes("/b/x") },
    );
    assert_eq!(out, vec![SemanticEvent::Deleted { watch_id: 1, path: bytes("/a/x") }]);
}

#[test]
fn classify_rename_entering_subtree_is_a_creation() {
    let out = classify_event(
        1,
        &bytes("/a"),
        &RawEvent::Rename { old_path: bytes("/b/x"), new_path: bytes("/a/x") },
    );
    assert_eq!(out, vec![SemanticEvent::Created { watch_id: 1, path: bytes("/a/x") }]);
}

#[test]
fn classify_rename_inside_subtree_is_a_rename() {
    let out = classify_event(
        1,
        &bytes("/a"),
        &RawEvent::Rename { old_path: bytes("/a/x"), new_path: bytes("/a/y") },
    );
    assert_eq!(
        out,
        vec![SemanticEvent::Renamed { watch_id: 1, path: bytes("/a/y"), old_path: bytes("/a/x") }]
    );
}

#[test]
fn classify_rename_outside_subtree_is_silent() {
    let out = classify_event(
        1,
        &bytes("/a"),
        &RawEvent::Rename { old_path: bytes("/b/x"), new_path: bytes("/c/x") },
    );
    assert!(out.is_empty());
}

#[test]
fn classify_informational_events_are_silent() {
    let root = bytes("/a");
    assert!(classify_event(1, &root, &RawEvent::NoticeWrite { path: bytes("/a/f") }).is_empty());
    assert!(classify_event(1, &root, &RawEvent::NoticeRemove { path: bytes("/a/f") }).is_empty());
    assert!(classify_event(1, &root, &RawEvent::Chmod { path: bytes("/a/f") }).is_empty());
    assert!(classify_event(1, &root, &RawEvent::Rescan).is_empty());
    assert!(classify_event(1, &root, &RawEvent::Error).is_empty());
}

#[test]
fn registry_insert_then_remove_restores_previous_state() {
    let mut reg = Registry::new();
    assert_eq!(reg.insert(7, bytes("/base")), Ok(()));
    assert_eq!(reg.insert(1, bytes("/tmp/x")), Ok(()));
    assert_eq!(reg.remove(1), Ok(bytes("/tmp/x")));
    assert_eq!(reg.len(), 1);
    assert!(reg.contains(7));
    assert!(!reg.contains(1));
}

#[test]
fn registry_watch_then_unwatch_leaves_it_empty() {
    let mut reg = Registry::new();
    assert_eq!(reg.insert(1, bytes("/tmp/x")), Ok(()));
    assert_eq!(reg.remove(1), Ok(bytes("/tmp/x")));
    assert_eq!(reg.len(), 0);
}

#[test]
fn registry_duplicate_id_is_rejected_without_a_change() {
    let mut reg = Registry::new();
    assert_eq!(reg.insert(1, bytes("/a")), Ok(()));
    assert_eq!(reg.insert(1, bytes("/elsewhere")), Err(RegistryError::AlreadyRegistered));
    assert_eq!(reg.len(), 1);
    assert_eq!(reg.remove(1), Ok(bytes("/a")));
}

#[test]
fn registry_remove_of_unknown_id_fails() {
    let mut reg = Registry::new();
    assert_eq!(reg.remove(9), Err(RegistryError::UnknownWatchId));
    assert_eq!(reg.len(), 0);
}

#[test]
fn watch_twice_same_id_is_ok_then_already_registered() {
    let mut reg = Registry::new();
    assert_eq!(watch_precheck(&reg, 1), None);
    assert_eq!(watch_commit(&mut reg, 1, bytes("/tmp/x")), Response::Accepted { id: 1 });
    assert_eq!(
        watch_precheck(&reg, 1),
        Some(Response::Refused { id: 1, kind: ErrorKind::AlreadyRegistered })
    );
    assert_eq!(
        watch_commit(&mut reg, 1, bytes("/tmp/x")),
        Response::Refused { id: 1, kind: ErrorKind::AlreadyRegistered }
    );
    assert_eq!(reg.len(), 1);
}

#[test]
fn unwatch_of_never_registered_id_is_refused() {
    let mut reg = Registry::new();
    let (resp, root) = handle_unwatch(&mut reg, 5);
    assert_eq!(resp, Response::Refused { id: 5, kind: ErrorKind::UnknownWatchId });
    assert_eq!(root, None);
}

#[test]
fn overlapping_watches_each_get_their_own_created_event() {
    let mut reg = Registry::new();
    assert_eq!(watch_commit(&mut reg, 1, bytes("/a")), Response::Accepted { id: 1 });
    assert_eq!(watch_commit(&mut reg, 2, bytes("/a/sub")), Response::Accepted { id: 2 });
    let out = dispatch_event(&reg, &RawEvent::Create { path: bytes("/a/sub/f") });
    assert_eq!(
        out,
        vec![
            SemanticEvent::Created { watch_id: 1, path: bytes("/a/sub/f") },
            SemanticEvent::Created { watch_id: 2, path: bytes("/a/sub/f") },
        ]
    );
}

#[test]
fn write_outside_every_watch_root_emits_nothing() {
    let mut reg = Registry::new();
    assert_eq!(watch_commit(&mut reg, 1, bytes("/a")), Response::Accepted { id: 1 });
    assert_eq!(watch_commit(&mut reg, 2, bytes("/b")), Response::Accepted { id: 2 });
    let out = dispatch_event(&reg, &RawEvent::Write { path: bytes("/outside") });
    assert!(out.is_empty());
}

#[test]
fn end_to_end_watch_create_unwatch_cycle() {
    let mut reg = Registry::new();
    assert_eq!(watch_precheck(&reg, 1), None);
    // the caller canonicalizes the requested root and subscribes it, then:
    assert_eq!(watch_commit(&mut reg, 1, bytes("/tmp/x")), Response::Accepted { id: 1 });
    let out = dispatch_event(&reg, &RawEvent::Create { path: bytes("/tmp/x/file") });
    assert_eq!(out, vec![SemanticEvent::Created { watch_id: 1, path: bytes("/tmp/x/file") }]);
    let (resp, root) = handle_unwatch(&mut reg, 1);
    assert_eq!(resp, Response::Accepted { id: 1 });
    assert_eq!(root, Some(bytes("/tmp/x")));
    let later = dispatch_event(&reg, &RawEvent::Write { path: bytes("/tmp/x/file") });
    assert!(later.is_empty());
    assert_eq!(reg.len(), 0);
}

#[test]
fn rename_across_two_watches_splits_per_watch() {
    let mut reg = Registry::new();
    assert_eq!(watch_commit(&mut reg, 1, bytes("/a")), Response::Accepted { id: 1 });
    assert_eq!(watch_commit(&mut reg, 2, bytes("/b")), Response::Accepted { id: 2 });
    let out = dispatch_event(
        &reg,
        &RawEvent::Rename { old_path: bytes("/a/x"), new_path: bytes("/b/x") },
    );
    assert_eq!(
        out,
        vec![
            SemanticEvent::Deleted { watch_id: 1, path: bytes("/a/x") },
            SemanticEvent::Created { watch_id: 2, path: bytes("/b/x") },
        ]
    );
}
