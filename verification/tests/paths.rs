use rayshot::paths::{
    autostart_path, join, last_selection_path, marker_path, pictures_dir, pictures_path,
    print_backup_path, scratch_dir, token_path,
};
use std::path::Path;

fn b(s: &str) -> Vec<u8> {
    s.as_bytes().to_vec()
}

#[test]
fn join_agrees_with_std() {
    for base in ["", "/", "/home/a", "/home/a/", "rel"] {
        for rel in ["x", ".cache/y", "/abs", ""] {
            let expected = Path::new(base).join(rel);
            assert_eq!(join(&b(base), rel), b(expected.to_str().unwrap()));
        }
    }
}

#[test]
fn scratch_directory_prefers_the_runtime_directory() {
    let (rt, home) = (b("/run/user/1000"), b("/home/a"));
    assert_eq!(scratch_dir(Some(&rt), Some(&home)), b("/run/user/1000/rayshot"));
    assert_eq!(scratch_dir(None, Some(&home)), b("/home/a/.cache/rayshot/scratch"));
    assert_eq!(scratch_dir(None, None), b("/tmp/.cache/rayshot/scratch"));
}

#[test]
fn files_below_home() {
    let home = b("/home/a");
    assert_eq!(last_selection_path(Some(&home)), b("/home/a/.cache/rayshot/last_selection"));
    assert_eq!(marker_path(Some(&home)), b("/home/a/.cache/rayshot/anim_restore"));
    assert_eq!(token_path(Some(&home)), b("/home/a/.config/rayshot/screencast.token"));
    assert_eq!(print_backup_path(Some(&home)), b("/home/a/.config/rayshot/print_backup"));
    assert_eq!(
        autostart_path(Some(&home)),
        b("/home/a/.config/autostart/rayshot-daemon.desktop")
    );
    assert_eq!(pictures_path(Some(&home)), b("/home/a/Pictures"));
    assert_eq!(marker_path(None), b("/tmp/.cache/rayshot/anim_restore"));
}

#[test]
fn pictures_fall_back_to_tmp() {
    let home = b("/home/a");
    assert_eq!(pictures_dir(Some(&home), true), b("/home/a/Pictures"));
    assert_eq!(pictures_dir(Some(&home), false), b("/tmp"));
}

#[test]
fn home_need_not_be_text() {
    let home = vec![b'/', 0xff];
    let mut expected = home.clone();
    expected.extend_from_slice(b"/Pictures");
    assert_eq!(pictures_path(Some(&home)), expected);
}
