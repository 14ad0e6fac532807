use mymediatrail::models::LibraryRoot;
use mymediatrail::volume::{
    mount_point_from_findmnt, mounted_volumes_from_findmnt, parse_mount_table, volume_uuid_from_findmnt,
    ResolveAction, ResolveEvent, ResolveStage, VolumeError,
};

fn root(selected: &str, status: &str, uuid: Option<&str>, mount: Option<&str>) -> LibraryRoot {
    LibraryRoot {
        id: "test-root".to_string(),
        label: "Test".to_string(),
        selected_path: selected.to_string(),
        normalized_selected_path: selected.replace('\\', "/"),
        os_type: "linux".to_string(),
        volume_uuid: uuid.map(|u| u.to_string()),
        volume_serial: None,
        volume_label: None,
        last_known_mount_path: mount.map(|m| m.to_string()),
        root_status: status.to_string(),
        last_seen_at: None,
        created_at: "2026-01-01T00:00:00+00:00".to_string(),
        updated_at: "2026-01-01T00:00:00+00:00".to_string(),
    }
}

/// Runs a resolution against a fixed file system and volume list; returns
/// the actions in order.
fn run(r: Option<LibraryRoot>, exists: &dyn Fn(&str) -> bool, vols: Option<Vec<(String, String)>>) -> Vec<ResolveAction> {
    let mut r = Some(r);
    let mut vols = Some(vols);
    let (mut stage, mut action) = ResolveStage::start();
    let mut out = Vec::new();
    loop {
        let ev = match &action {
            ResolveAction::LoadRoot => ResolveEvent::RootLoaded(r.take().unwrap()),
            ResolveAction::CheckPath(p) => ResolveEvent::PathChecked(exists(p)),
            ResolveAction::ListVolumes => ResolveEvent::VolumesListed(vols.take().unwrap()),
            ResolveAction::Finish(_) => {
                out.push(action);
                return out;
            }
            _ => ResolveEvent::Written,
        };
        out.push(action);
        let (s, a) = stage.step(ev);
        stage = s;
        action = a;
    }
}

#[test]
fn findmnt_uuid_trimmed() {
    assert_eq!(volume_uuid_from_findmnt(true, "  1234-ABCD\n", ""), Ok("1234-ABCD".to_string()));
}

#[test]
fn findmnt_uuid_empty_is_error() {
    let e = volume_uuid_from_findmnt(true, " \n", "").unwrap_err();
    assert_eq!(e, VolumeError::EmptyUuid);
    assert_eq!(e.message(), "findmnt returned empty UUID");
}

#[test]
fn findmnt_failure_reports_stderr() {
    let e = mount_point_from_findmnt(false, "/", "no such file").unwrap_err();
    assert_eq!(e, VolumeError::FindmntFailed("no such file".to_string()));
    assert_eq!(e.message(), "findmnt failed: no such file");
}

#[test]
fn findmnt_mount_point() {
    assert_eq!(mount_point_from_findmnt(true, "/media/usb\n", ""), Ok("/media/usb".to_string()));
    assert_eq!(mount_point_from_findmnt(true, "", ""), Err(VolumeError::EmptyMountPoint));
    assert_eq!(VolumeError::EmptyMountPoint.message(), "findmnt returned empty mount point");
}

#[test]
fn mount_table_parsing() {
    let text = "/ 11111111-aaaa\n/boot -\n/proc\n/media/usb 2222-BBBB\n/a b c\n\n/mnt/x 3333\r\n";
    let v = parse_mount_table(text);
    assert_eq!(
        v,
        vec![
            ("/".to_string(), "11111111-aaaa".to_string()),
            ("/media/usb".to_string(), "2222-BBBB".to_string()),
            ("/mnt/x".to_string(), "3333".to_string()),
        ]
    );
}

#[test]
fn mounted_volumes_failure() {
    assert_eq!(
        mounted_volumes_from_findmnt(false, "/ x\n", "boom"),
        Err(VolumeError::FindmntFailed("boom".to_string()))
    );
    assert_eq!(mounted_volumes_from_findmnt(true, "", ""), Ok(vec![]));
}

#[test]
fn error_messages() {
    assert_eq!(VolumeError::RootNotFound.message(), "Library root not found");
    assert_eq!(
        VolumeError::RootOffline("Test".to_string()).message(),
        "Library root 'Test' is offline (path not found)"
    );
}

#[test]
fn test_resolve_and_heal_root_existing() {
    let acts = run(Some(root("/", "new", Some("mock-uuid"), None)), &|p| p == "/", None);
    assert_eq!(acts.len(), 4);
    assert!(matches!(&acts[1], ResolveAction::CheckPath(p) if p == "/"));
    assert!(matches!(acts[2], ResolveAction::MarkActive));
    assert!(matches!(&acts[3], ResolveAction::Finish(Ok(p)) if p == "/"));
}

#[test]
fn test_resolve_and_heal_root_missing_no_uuid() {
    let acts = run(
        Some(root("/non/existent/path/for/mymediatrail/test", "new", None, None)),
        &|_| false,
        None,
    );
    assert_eq!(acts.len(), 4);
    assert!(matches!(acts[2], ResolveAction::MarkMissing));
    assert!(matches!(&acts[3], ResolveAction::Finish(Err(VolumeError::RootOffline(l))) if l == "Test"));
}

#[test]
fn active_root_present_is_not_rewritten() {
    let acts = run(Some(root("/data", "active", None, None)), &|_| true, None);
    assert_eq!(acts.len(), 3);
    assert!(matches!(&acts[2], ResolveAction::Finish(Ok(p)) if p == "/data"));
}

#[test]
fn missing_root_already_marked_is_not_rewritten() {
    let acts = run(Some(root("/gone", "missing", None, None)), &|_| false, None);
    assert_eq!(acts.len(), 3);
    assert!(matches!(&acts[2], ResolveAction::Finish(Err(VolumeError::RootOffline(_)))));
}

#[test]
fn unknown_root_not_found() {
    let acts = run(None, &|_| true, None);
    assert_eq!(acts.len(), 2);
    assert!(matches!(&acts[1], ResolveAction::Finish(Err(VolumeError::RootNotFound))));
}

#[test]
fn moved_volume_is_healed() {
    let vols = vec![
        ("/".to_string(), "root-uuid".to_string()),
        ("/run/media/me/USB".to_string(), "1234-ABCD".to_string()),
    ];
    let acts = run(
        Some(root("/media/usb/Movies/Action", "active", Some("1234-ABCD"), Some("/media/usb"))),
        &|p| p == "/run/media/me/USB/Movies/Action",
        Some(vols),
    );
    assert_eq!(acts.len(), 6);
    assert!(matches!(acts[2], ResolveAction::ListVolumes));
    assert!(matches!(&acts[3], ResolveAction::CheckPath(p) if p == "/run/media/me/USB/Movies/Action"));
    match &acts[4] {
        ResolveAction::Relocate { selected_path, normalized_selected_path, last_known_mount_path } => {
            assert_eq!(selected_path, "/run/media/me/USB/Movies/Action");
            assert_eq!(normalized_selected_path, "/run/media/me/USB/Movies/Action");
            assert_eq!(last_known_mount_path, "/run/media/me/USB");
        }
        other => panic!("unexpected {:?}", other),
    }
    assert!(matches!(&acts[5], ResolveAction::Finish(Ok(p)) if p == "/run/media/me/USB/Movies/Action"));
}

#[test]
fn volume_listed_but_folder_absent_gives_up() {
    let vols = vec![("/run/media/me/USB".to_string(), "1234-ABCD".to_string())];
    let acts = run(
        Some(root("/media/usb/Movies", "active", Some("1234-ABCD"), Some("/media/usb"))),
        &|_| false,
        Some(vols),
    );
    assert!(matches!(acts[acts.len() - 2], ResolveAction::MarkMissing));
    assert!(matches!(&acts[acts.len() - 1], ResolveAction::Finish(Err(VolumeError::RootOffline(_)))));
}

#[test]
fn volume_listing_failure_gives_up() {
    let acts = run(Some(root("/media/usb/Movies", "new", Some("u"), None)), &|_| false, None);
    assert_eq!(acts.len(), 5);
    assert!(matches!(acts[2], ResolveAction::ListVolumes));
    assert!(matches!(acts[3], ResolveAction::MarkMissing));
}
