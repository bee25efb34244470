use rayshot::anim::{
    force_restore, get_bool, make_token, restore_detached, set_bool, settings, AnimationGuard,
};

fn s(text: &str) -> String {
    text.to_string()
}

#[test]
fn two_settings_are_quieted() {
    assert_eq!(
        settings(),
        vec![
            (s("org.gnome.desktop.interface"), s("enable-animations")),
            (s("org.gnome.desktop.sound"), s("event-sounds")),
        ]
    );
}

#[test]
fn settings_are_read_and_written_as_words() {
    assert!(get_bool(Some(&s("true\n"))));
    assert!(!get_bool(Some(&s("false\n"))));
    assert!(!get_bool(Some(&s("True"))));
    assert!(!get_bool(None));
    assert_eq!((set_bool(true), set_bool(false)), ("true", "false"));
}

#[test]
fn token_names_process_and_moment() {
    assert_eq!(make_token(17, 1_700_000_000_000_000_000), "tok-17-1700000000000000000");
}

#[test]
fn disabling_writes_what_to_restore() {
    let q = AnimationGuard::disable(false, &vec![true, true], "tok-1-2");
    assert!(q.guard.restore);
    assert_eq!(q.off, settings());
    let marker = q.marker.unwrap();
    assert_eq!(
        marker,
        "tok-1-2\norg.gnome.desktop.interface enable-animations\norg.gnome.desktop.sound event-sounds"
    );
    assert_eq!(force_restore(&marker), settings());
}

#[test]
fn only_enabled_settings_are_restored() {
    let q = AnimationGuard::disable(false, &vec![false, true], &make_token(3, 4));
    assert_eq!(q.off, vec![settings()[1].clone()]);
    assert_eq!(force_restore(&q.marker.unwrap()), q.off);
}

#[test]
fn nothing_enabled_leaves_nothing_to_restore() {
    let q = AnimationGuard::disable(false, &vec![false, false], "t");
    assert!(!q.guard.restore && q.off.is_empty() && q.marker.is_none());
}

#[test]
fn keeping_animations_changes_nothing() {
    let q = AnimationGuard::disable(true, &vec![], "t");
    assert!(!q.guard.restore && q.off.is_empty() && q.marker.is_none());
}

#[test]
fn restore_reads_lines_with_a_space() {
    assert_eq!(
        force_restore("tok\na b\r\nnospace\nc d e\n"),
        vec![(s("a"), s("b")), (s("c"), s("d e"))]
    );
    assert!(force_restore("").is_empty());
}

#[test]
fn detached_restore_checks_the_token() {
    assert_eq!(
        restore_detached("tok-1-2\na b\nc d", "/m").unwrap(),
        "sleep 0.25; if [ \"x$(head -n1 '/m' 2>/dev/null)\" = \"xtok-1-2\" ]; then \
         gsettings set a b true; gsettings set c d true; rm -f '/m'; fi"
    );
    assert_eq!(
        restore_detached("t u", "/m").unwrap(),
        "sleep 0.25; if [ \"x$(head -n1 '/m' 2>/dev/null)\" = \"xt u\" ]; then rm -f '/m'; fi"
    );
    assert!(restore_detached("", "/m").is_none());
}
