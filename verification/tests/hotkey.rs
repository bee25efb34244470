use rayshot::hotkey::{
    binds_print, format_paths, gget, install, kb_schema_path, parse_paths, uninstall,
    write_autostart, Step, KB_PATH, MEDIA_KEYS, SHELL_KB,
};

fn s(text: &str) -> String {
    text.to_string()
}

fn show(steps: &[Step]) -> Vec<String> {
    steps
        .iter()
        .map(|step| match step {
            Step::Change { schema, key, value } => format!("set {schema} {key} {value}"),
            Step::WriteBackup { binding } => format!("backup {binding}"),
            Step::RemoveBackup => s("remove backup"),
            Step::WriteAutostart { content } => format!("autostart {content}"),
            Step::RemoveAutostart => s("remove autostart"),
            Step::StartDaemon => s("start"),
            Step::Say { line } => format!("say {line}"),
        })
        .collect()
}

#[test]
fn paths_are_what_stands_in_quotes() {
    assert_eq!(parse_paths("['/a/', '/b/']"), vec![s("/a/"), s("/b/")]);
    assert!(parse_paths("@as []").is_empty());
    assert!(parse_paths("").is_empty());
    assert_eq!(parse_paths("'open"), vec![s("open")]);
    assert_eq!(parse_paths("''"), vec![s("")]);
}

#[test]
fn paths_are_written_as_a_list() {
    assert_eq!(format_paths(&vec![]), "@as []");
    assert_eq!(format_paths(&vec![s("/a/")]), "['/a/']");
    let two = vec![s("/a/"), s("/b/")];
    assert_eq!(format_paths(&two), "['/a/', '/b/']");
    assert_eq!(parse_paths(&format_paths(&two)), two);
}

#[test]
fn schema_holds_the_path() {
    assert_eq!(kb_schema_path(), format!("{MEDIA_KEYS}.custom-keybinding:{KB_PATH}"));
}

#[test]
fn print_key_in_any_case() {
    for text in ["Print", "PRINT", "print", "pRiNt"] {
        assert!(binds_print(text));
    }
    for text in ["", "Prin", "Prints", "<Shift>Print"] {
        assert!(!binds_print(text));
    }
}

#[test]
fn settings_values_are_trimmed() {
    assert_eq!(gget(Some(&s(" ['Print']\n"))), Some(s("['Print']")));
    assert_eq!(gget(None), None);
}

#[test]
fn installing_on_the_print_key() {
    let steps = install("Print", false, "/bin/r", Some(&s("['Print']")), false, Some(&s("['/x/']")));
    let schema = kb_schema_path();
    assert_eq!(
        show(&steps),
        vec![
            s("backup ['Print']"),
            format!("set {SHELL_KB} show-screenshot-ui @as []"),
            format!("set {schema} name rayshot"),
            format!("set {schema} command /bin/r"),
            format!("set {schema} binding Print"),
            format!("set {MEDIA_KEYS} custom-keybindings ['/x/', '{KB_PATH}']"),
            s("remove autostart"),
            s("say rayshot hotkey installed: Print -> /bin/r"),
        ]
    );
}

#[test]
fn installing_the_daemon() {
    let steps = install("<Super>p", true, "/bin/r", None, false, None);
    let schema = kb_schema_path();
    assert_eq!(
        show(&steps),
        vec![
            format!("set {schema} name rayshot"),
            format!("set {schema} command /bin/r trigger"),
            format!("set {schema} binding <Super>p"),
            format!("set {MEDIA_KEYS} custom-keybindings ['{KB_PATH}']"),
            format!("autostart {}", write_autostart("/bin/r")),
            s("start"),
            s("say rayshot hotkey installed (daemon mode): <Super>p -> /bin/r trigger"),
            s("say daemon autostart enabled and started"),
        ]
    );
}

#[test]
fn a_kept_binding_is_not_overwritten() {
    let steps = install("print", false, "r", Some(&s("@as []")), true, None);
    assert_eq!(show(&steps)[0], format!("set {SHELL_KB} show-screenshot-ui @as []"));
    let steps = install("print", false, "r", None, false, None);
    assert_eq!(show(&steps)[0], format!("set {SHELL_KB} show-screenshot-ui @as []"));
}

#[test]
fn installing_twice_registers_once() {
    let list = format!("['/x/', '{KB_PATH}']");
    let steps = install("F1", false, "r", None, false, Some(&list));
    assert_eq!(
        show(&steps)[3],
        format!("set {MEDIA_KEYS} custom-keybindings ['/x/', '{KB_PATH}']")
    );
}

#[test]
fn uninstalling_restores_the_print_key() {
    let list = format!("['/x/', '{KB_PATH}', '/y/']");
    let steps = uninstall(Some(&list), Some(&s("['<Shift>Print']\n")));
    assert_eq!(
        show(&steps),
        vec![
            format!("set {MEDIA_KEYS} custom-keybindings ['/x/', '/y/']"),
            format!("set {SHELL_KB} show-screenshot-ui ['<Shift>Print']"),
            s("remove backup"),
            s("remove autostart"),
            s("say rayshot hotkey removed; GNOME Print restored to ['<Shift>Print']"),
            s("say daemon autostart disabled (running daemon, if any, stays until logout)"),
        ]
    );
    let steps = uninstall(None, None);
    assert_eq!(show(&steps)[0], format!("set {MEDIA_KEYS} custom-keybindings @as []"));
    assert_eq!(show(&steps)[1], format!("set {SHELL_KB} show-screenshot-ui ['Print']"));
}

#[test]
fn autostart_entry_runs_the_daemon() {
    assert_eq!(
        write_autostart("/usr/bin/rayshot"),
        "[Desktop Entry]\nType=Application\nName=rayshot daemon\nComment=rayshot instant screenshot daemon\nExec=/usr/bin/rayshot daemon\nX-GNOME-Autostart-enabled=true\nNoDisplay=true\n"
    );
}
