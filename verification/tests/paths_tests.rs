use mymediatrail::paths::{join_path, portable_dir, relocated_path};
use std::path::{Path, PathBuf};

fn std_relocate(selected: &str, last_mount: &str, new_mount: &str) -> String {
    let old_selected = Path::new(selected);
    let rel = old_selected.strip_prefix(Path::new(last_mount)).unwrap_or(old_selected);
    PathBuf::from(new_mount).join(rel).to_string_lossy().to_string()
}

#[test]
fn relocation_matches_std_on_plain_paths() {
    let cases = [
        ("/media/usb/Movies", "/media/usb", "/run/media/me/USB"),
        ("/media/usb", "/media/usb", "/mnt/x"),
        ("/media/usb/Movies", "", "/mnt/x"),
        ("/data/Movies", "/media/usb", "/mnt/x"),
        ("/media/usb/A/B", "/media/usb", "/"),
        ("/media/usb/A", "/media", "/mnt/"),
        ("/m/a//b", "/m", "/n"),
        ("/m/./a/./b/", "/m", "/n"),
        ("/m//a/b/.", "/m/", "/n"),
        ("/m/a", "/m/a", "/n"),
        ("/m/a/", "/m/a/.", "/n"),
        ("/m/a", "", ""),
        ("/m/a/", "", "/n"),
        ("./x/y", ".", "/n"),
        ("x/y", "x", "rel"),
        ("x/y", "./x", "/n"),
        ("/", "/", "/n"),
        ("//m//a", "/m", "/n"),
        ("/m/a", "m", "/n"),
        ("", "", "/n"),
    ];
    for (s, m, n) in cases {
        assert_eq!(relocated_path(s, m, n), std_relocate(s, m, n), "{} {} {}", s, m, n);
    }
}

#[test]
fn relocation_example() {
    assert_eq!(relocated_path("/media/usb/Movies", "/media/usb", "/run/media/me/USB"), "/run/media/me/USB/Movies");
}

#[test]
fn join_matches_std() {
    for (b, r) in [
        ("/mnt/x", "a/b.mkv"),
        ("/mnt/x/", "a.mkv"),
        ("", "a.mkv"),
        ("/mnt", "/abs/a.mkv"),
        ("/R", "a//b.mp4"),
        ("/R", "./a/./b.mp4"),
        ("/R", ""),
    ] {
        assert_eq!(join_path(b, r), PathBuf::from(b).join(r).to_string_lossy().to_string());
    }
}

#[test]
fn portable_dir_climbs_out_of_src_tauri() {
    assert_eq!(portable_dir("/home/me/app/src-tauri"), "/home/me/app");
    assert_eq!(portable_dir("/src-tauri"), "/");
    assert_eq!(portable_dir("/home/me/app"), "/home/me/app");
    assert_eq!(portable_dir("/home/me/src-tauri-x"), "/home/me/src-tauri-x");
    for p in [
        "/home/me/app/src-tauri",
        "/src-tauri",
        "/home/me/app",
        "/home/me//app//src-tauri/",
        "/home/me/app/src-tauri/.",
        "src-tauri",
        "./src-tauri",
        "a/./src-tauri",
        "/a/src-tauri/x",
    ] {
        let pb = PathBuf::from(p);
        let expect = if pb.ends_with("src-tauri") { pb.parent().unwrap().to_path_buf() } else { pb };
        assert_eq!(portable_dir(p), expect.to_string_lossy());
    }
}
