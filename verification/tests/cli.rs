use rayshot::cli::{parse, Command, UsageError};

fn args(list: &[&str]) -> Vec<String> {
    list.iter().map(|a| a.to_string()).collect()
}

#[test]
fn no_command_is_interactive() {
    assert!(matches!(parse(&args(&[])), Ok(Command::Interactive)));
    assert!(matches!(parse(&args(&["anything"])), Ok(Command::Interactive)));
}

#[test]
fn plain_commands() {
    assert!(matches!(parse(&args(&["uninstall-hotkey"])), Ok(Command::UninstallHotkey)));
    assert!(matches!(parse(&args(&["monitors"])), Ok(Command::Monitors)));
    assert!(matches!(parse(&args(&["daemon"])), Ok(Command::Daemon)));
    assert!(matches!(parse(&args(&["close"])), Ok(Command::Close)));
    assert!(matches!(parse(&args(&["trigger"])), Ok(Command::Trigger)));
}

#[test]
fn hotkey_arguments() {
    let cases = [
        (vec!["install-hotkey"], "Print", false),
        (vec!["install-hotkey", "--daemon"], "Print", true),
        (vec!["install-hotkey", "--daemon", "<Super>s", "F2"], "<Super>s", true),
        (vec!["install-hotkey", "--other", "-x"], "-x", false),
    ];
    for (list, key, wanted) in cases {
        match parse(&args(&list)) {
            Ok(Command::InstallHotkey { binding, daemon }) => {
                assert_eq!((binding.as_str(), daemon), (key, wanted));
            }
            _ => panic!("not an installation"),
        }
    }
}

#[test]
fn overlay_needs_a_frame() {
    assert_eq!(parse(&args(&["overlay"])).err(), Some(UsageError::NoFramePath));
    assert!(matches!(
        parse(&args(&["overlay", "/tmp/f"])),
        Ok(Command::Overlay { path }) if path == "/tmp/f"
    ));
}

#[test]
fn shots_have_default_paths() {
    assert!(matches!(
        parse(&args(&["shot"])),
        Ok(Command::Shot { path }) if path == "/tmp/rayshot-capture.png"
    ));
    assert!(matches!(
        parse(&args(&["shot-pw"])),
        Ok(Command::ShotPw { path }) if path == "/tmp/rayshot-pw.png"
    ));
    assert!(matches!(
        parse(&args(&["shot-pw", "a.png", "b.png"])),
        Ok(Command::ShotPw { path }) if path == "a.png"
    ));
}
