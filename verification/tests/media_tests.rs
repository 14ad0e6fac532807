use mymediatrail::media::{item_path, merge_targets, new_library_root, rebinding, watch_status_after_play};
use mymediatrail::models::RootStatus;

#[test]
fn playing_unwatched_starts_progress() {
    assert_eq!(watch_status_after_play("unwatched"), ("in_progress".to_string(), true));
    assert_eq!(watch_status_after_play("watched"), ("watched".to_string(), false));
    assert_eq!(watch_status_after_play("in_progress"), ("in_progress".to_string(), false));
}

#[test]
fn merge_without_discarded_does_nothing() {
    assert!(merge_targets("p", &vec![]).is_none());
}

#[test]
fn merge_never_removes_preferred() {
    let d = vec!["a".to_string(), "p".to_string(), "b".to_string(), "p".to_string()];
    assert_eq!(merge_targets("p", &d), Some(vec!["a".to_string(), "b".to_string()]));
    assert_eq!(merge_targets("p", &vec!["p".to_string()]), Some(vec![]));
}

#[test]
fn item_locations() {
    assert_eq!(item_path("/media/usb/Movies", "sub/a.mkv"), "/media/usb/Movies/sub/a.mkv");
    assert_eq!(item_path("/media/usb/Movies/", "a.mkv"), "/media/usb/Movies/a.mkv");
    assert_eq!(item_path("/R", "a//b.mp4"), "/R/a//b.mp4");
    assert_eq!(item_path("/R", "a//b.mp4"), std::path::PathBuf::from("/R").join("a//b.mp4").to_string_lossy());
}

#[test]
fn added_root_record() {
    let r = new_library_root(
        "id1".to_string(),
        "Movies".to_string(),
        "D:\\Movies",
        "windows".to_string(),
        None,
        None,
        "now".to_string(),
    );
    assert_eq!(r.selected_path, "D:\\Movies");
    assert_eq!(r.normalized_selected_path, "D:/Movies");
    assert_eq!(r.last_known_mount_path.as_deref(), Some("D:\\Movies"));
    assert_eq!(r.get_status(), RootStatus::New);
    assert_eq!(r.root_status, "new");
    assert_eq!(r.created_at, "now");
    assert_eq!(r.updated_at, "now");
    assert!(r.last_seen_at.is_none());
}

#[test]
fn added_root_with_mount_point() {
    let r = new_library_root(
        "id1".to_string(),
        "Movies".to_string(),
        "/media/usb/Movies",
        "linux".to_string(),
        Some("U".to_string()),
        Some("/media/usb".to_string()),
        "now".to_string(),
    );
    assert_eq!(r.last_known_mount_path.as_deref(), Some("/media/usb"));
    assert_eq!(r.volume_uuid.as_deref(), Some("U"));
}

#[test]
fn rebinding_keeps_uuid_when_none_found() {
    let mut r = new_library_root(
        "id1".to_string(),
        "Movies".to_string(),
        "/old",
        "linux".to_string(),
        Some("U".to_string()),
        None,
        "t0".to_string(),
    );
    let b = rebinding("C:\\new", None, None);
    assert_eq!(b.normalized_selected_path, "C:/new");
    assert_eq!(b.last_known_mount_path, "C:\\new");
    r.rebind(b, "t1".to_string());
    assert_eq!(r.volume_uuid.as_deref(), Some("U"));
    assert_eq!(r.root_status, "active");
    assert_eq!(r.selected_path, "C:\\new");
    assert_eq!(r.updated_at, "t1");
    assert_eq!(r.created_at, "t0");
    r.rebind(rebinding("/x", Some("V".to_string()), Some("/".to_string())), "t2".to_string());
    assert_eq!(r.volume_uuid.as_deref(), Some("V"));
    assert_eq!(r.last_known_mount_path.as_deref(), Some("/"));
}
