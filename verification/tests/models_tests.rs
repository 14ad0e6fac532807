use mymediatrail::models::{LibraryRoot, RootStatus};

fn root_with_status(status: &str) -> LibraryRoot {
    LibraryRoot {
        id: "r1".to_string(),
        label: "Movies".to_string(),
        selected_path: "/media/usb/Movies".to_string(),
        normalized_selected_path: "/media/usb/Movies".to_string(),
        os_type: "linux".to_string(),
        volume_uuid: Some("1234-ABCD".to_string()),
        volume_serial: None,
        volume_label: None,
        last_known_mount_path: Some("/media/usb".to_string()),
        root_status: status.to_string(),
        last_seen_at: None,
        created_at: "2026-01-01T00:00:00+00:00".to_string(),
        updated_at: "2026-01-01T00:00:00+00:00".to_string(),
    }
}

#[test]
fn root_status_from_known_texts() {
    assert_eq!(RootStatus::from("new".to_string()), RootStatus::New);
    assert_eq!(RootStatus::from("active".to_string()), RootStatus::Active);
    assert_eq!(RootStatus::from("missing".to_string()), RootStatus::Missing);
    assert_eq!(RootStatus::from("unresolved".to_string()), RootStatus::Unresolved);
    assert_eq!(RootStatus::from("disabled".to_string()), RootStatus::Disabled);
}

#[test]
fn root_status_unknown_text_reads_as_new() {
    assert_eq!(RootStatus::from("bogus".to_string()), RootStatus::New);
    assert_eq!(RootStatus::from("".to_string()), RootStatus::New);
    assert_eq!(RootStatus::from("Active".to_string()), RootStatus::New);
}

#[test]
fn root_status_to_string_texts() {
    assert_eq!(RootStatus::New.to_string(), "new");
    assert_eq!(RootStatus::Active.to_string(), "active");
    assert_eq!(RootStatus::Missing.to_string(), "missing");
    assert_eq!(RootStatus::Unresolved.to_string(), "unresolved");
    assert_eq!(RootStatus::Disabled.to_string(), "disabled");
}

#[test]
fn root_status_roundtrip() {
    for s in [
        RootStatus::New,
        RootStatus::Active,
        RootStatus::Missing,
        RootStatus::Unresolved,
        RootStatus::Disabled,
    ] {
        assert_eq!(RootStatus::from(s.to_string()), s);
        assert_eq!(RootStatus::parse(&s.to_string()), s);
    }
}

#[test]
fn library_root_get_status() {
    assert_eq!(root_with_status("missing").get_status(), RootStatus::Missing);
    assert_eq!(root_with_status("active").get_status(), RootStatus::Active);
    assert_eq!(root_with_status("whatever").get_status(), RootStatus::New);
}
