//! The command line.

use vstd::prelude::*;

use crate::text::{chars_of, same, texts};

verus! {

/// What the program is asked to do.
pub enum Command {
    /// Binds a key to the program, started by the desktop or kept running.
    InstallHotkey { binding: String, daemon: bool },
    /// Takes the binding back.
    UninstallHotkey,
    /// Lists the monitors.
    Monitors,
    /// Stays in the background.
    Daemon,
    /// Shows the overlay over the frame in a file.
    Overlay { path: String },
    /// Closes the overlay of the program in the background.
    Close,
    /// Has the program in the background show the overlay, or shows it itself.
    Trigger,
    /// Saves what the screencast shows.
    ShotPw { path: String },
    /// Saves a screenshot.
    Shot { path: String },
    /// Shows the overlay over a new screenshot.
    Interactive,
}

/// The contents of a `Command`.
pub enum CommandView {
    InstallHotkey { binding: Seq<char>, daemon: bool },
    UninstallHotkey,
    Monitors,
    Daemon,
    Overlay { path: Seq<char> },
    Close,
    Trigger,
    ShotPw { path: Seq<char> },
    Shot { path: Seq<char> },
    Interactive,
}

impl View for Command {
    type V = CommandView;

    open spec fn view(&self) -> CommandView {
        match *self {
            Command::InstallHotkey { binding, daemon } => CommandView::InstallHotkey {
                binding: binding@,
                daemon,
            },
            Command::UninstallHotkey => CommandView::UninstallHotkey,
            Command::Monitors => CommandView::Monitors,
            Command::Daemon => CommandView::Daemon,
            Command::Overlay { path } => CommandView::Overlay { path: path@ },
            Command::Close => CommandView::Close,
            Command::Trigger => CommandView::Trigger,
            Command::ShotPw { path } => CommandView::ShotPw { path: path@ },
            Command::Shot { path } => CommandView::Shot { path: path@ },
            Command::Interactive => CommandView::Interactive,
        }
    }
}

/// Why the arguments are refused.
#[derive(Clone, Copy, Debug, PartialEq, Eq, Structural)]
pub enum UsageError {
    /// The overlay is not told which frame to show.
    NoFramePath,
}

/// The argument is an option.
pub open spec fn is_option(arg: Seq<char>) -> bool {
    arg.len() >= 2 && arg[0] == '-' && arg[1] == '-'
}

/// The first argument, from the `i`-th on, that is not an option, or else `Print`.
pub open spec fn binding_from(args: Seq<Seq<char>>, i: int) -> Seq<char>
    decreases args.len() - i,
{
    if i >= args.len() {
        "Print"@
    } else if !is_option(args[i]) {
        args[i]
    } else {
        binding_from(args, i + 1)
    }
}

/// The option is among the arguments from the second on.
pub open spec fn has_option(args: Seq<Seq<char>>, option: Seq<char>) -> bool {
    exists|i: int| 1 <= i < args.len() && #[trigger] args[i] == option
}

/// The second argument, or what takes its place.
pub open spec fn path_or(args: Seq<Seq<char>>, default: Seq<char>) -> Seq<char> {
    if args.len() > 1 {
        args[1]
    } else {
        default
    }
}

/// What the arguments, without the program's own name, ask for.
pub open spec fn command_of(args: Seq<Seq<char>>) -> Result<CommandView, UsageError> {
    if args.len() == 0 {
        Ok(CommandView::Interactive)
    } else if args[0] == "install-hotkey"@ {
        Ok(
            CommandView::InstallHotkey {
                binding: binding_from(args, 1),
                daemon: has_option(args, "--daemon"@),
            },
        )
    } else if args[0] == "uninstall-hotkey"@ {
        Ok(CommandView::UninstallHotkey)
    } else if args[0] == "monitors"@ {
        Ok(CommandView::Monitors)
    } else if args[0] == "daemon"@ {
        Ok(CommandView::Daemon)
    } else if args[0] == "overlay"@ {
        if args.len() > 1 {
            Ok(CommandView::Overlay { path: args[1] })
        } else {
            Err(UsageError::NoFramePath)
        }
    } else if args[0] == "close"@ {
        Ok(CommandView::Close)
    } else if args[0] == "trigger"@ {
        Ok(CommandView::Trigger)
    } else if args[0] == "shot-pw"@ {
        Ok(CommandView::ShotPw { path: path_or(args, "/tmp/rayshot-pw.png"@) })
    } else if args[0] == "shot"@ {
        Ok(CommandView::Shot { path: path_or(args, "/tmp/rayshot-capture.png"@) })
    } else {
        Ok(CommandView::Interactive)
    }
}

/// Whether the argument is an option.
fn starts_option(arg: &str) -> (r: bool)
    ensures
        r == is_option(arg@),
{
    let chars = chars_of(arg);
    chars.len() >= 2 && chars[0] == '-' && chars[1] == '-'
}

/// The key to bind.
fn find_binding(args: &Vec<String>) -> (r: String)
    ensures
        r@ == binding_from(texts(args@), 1),
{
    let n: usize = args.len();
    let mut i: usize = 1;
    while i < n
        invariant
            1 <= i,
            n == args@.len(),
            binding_from(texts(args@), 1) == binding_from(texts(args@), i as int),
        decreases n - i,
    {
        if !starts_option(args[i].as_str()) {
            return args[i].clone();
        }
        i = i + 1;
    }
    "Print".to_owned()
}

/// Whether the option is among the arguments from the second on.
fn find_option(args: &Vec<String>, option: &str) -> (r: bool)
    ensures
        r == has_option(texts(args@), option@),
{
    let n: usize = args.len();
    let mut i: usize = 1;
    while i < n
        invariant
            1 <= i,
            n == args@.len(),
            forall|j: int| 1 <= j < i ==> #[trigger] texts(args@)[j] != option@,
        decreases n - i,
    {
        if same(args[i].as_str(), option) {
            assert(texts(args@)[i as int] == option@);
            return true;
        }
        i = i + 1;
    }
    false
}

/// The second argument, or what takes its place.
fn second_or(args: &Vec<String>, default: &str) -> (r: String)
    ensures
        r@ == path_or(texts(args@), default@),
{
    if args.len() > 1 {
        args[1].clone()
    } else {
        default.to_owned()
    }
}

/// What the arguments, without the program's own name, ask for.
pub fn parse(args: &Vec<String>) -> (r: Result<Command, UsageError>)
    ensures
        match r {
            Ok(command) => command_of(texts(args@)) == Ok::<CommandView, UsageError>(command@),
            Err(e) => command_of(texts(args@)) == Err::<CommandView, UsageError>(e),
        },
{
    if args.len() == 0 {
        return Ok(Command::Interactive);
    }
    let first = args[0].as_str();
    assert(first@ == texts(args@)[0]);
    if same(first, "install-hotkey") {
        let binding = find_binding(args);
        let daemon = find_option(args, "--daemon");
        Ok(Command::InstallHotkey { binding, daemon })
    } else if same(first, "uninstall-hotkey") {
        Ok(Command::UninstallHotkey)
    } else if same(first, "monitors") {
        Ok(Command::Monitors)
    } else if same(first, "daemon") {
        Ok(Command::Daemon)
    } else if same(first, "overlay") {
        if args.len() > 1 {
            Ok(Command::Overlay { path: args[1].clone() })
        } else {
            Err(UsageError::NoFramePath)
        }
    } else if same(first, "close") {
        Ok(Command::Close)
    } else if same(first, "trigger") {
        Ok(Command::Trigger)
    } else if same(first, "shot-pw") {
        Ok(Command::ShotPw { path: second_or(args, "/tmp/rayshot-pw.png") })
    } else if same(first, "shot") {
        Ok(Command::Shot { path: second_or(args, "/tmp/rayshot-capture.png") })
    } else {
        Ok(Command::Interactive)
    }
}

/// The argument begins with two dashes.
pub open spec fn begins_with_dashes(arg: Seq<char>) -> bool {
    arg.len() >= 2 && arg.take(2) == seq!['-', '-']
}

proof fn lemma_dashes(arg: Seq<char>)
    ensures
        is_option(arg) <==> begins_with_dashes(arg),
{
    if arg.len() >= 2 {
        assert(arg.take(2)[0] == arg[0]);
        assert(arg.take(2)[1] == arg[1]);
        if is_option(arg) {
            assert(arg.take(2) =~= seq!['-', '-']);
        }
    }
}

proof fn lemma_binding(args: Seq<Seq<char>>, i: int, k: int)
    requires
        0 <= i <= k <= args.len(),
        forall|j: int| i <= j < k ==> begins_with_dashes(#[trigger] args[j]),
        k < args.len() ==> !begins_with_dashes(args[k]),
    ensures
        binding_from(args, i) == if k < args.len() {
            args[k]
        } else {
            "Print"@
        },
    decreases k - i,
{
    if i < k {
        lemma_dashes(args[i]);
        assert(begins_with_dashes(args[i]));
        lemma_binding(args, i + 1, k);
    } else if k < args.len() {
        lemma_dashes(args[k]);
    }
}

/// The key to bind is the first argument after the command that does not begin with two dashes,
/// and the Print key if there is none; the daemon is wanted if `--daemon` is among the arguments
/// after the command, wherever it stands.
pub proof fn law_arguments_of_installing(args: Seq<Seq<char>>, k: int)
    requires
        1 <= k <= args.len(),
        args[0] == "install-hotkey"@,
        forall|j: int| 1 <= j < k ==> begins_with_dashes(#[trigger] args[j]),
        k < args.len() ==> !begins_with_dashes(args[k]),
    ensures
        match command_of(args) {
            Ok(CommandView::InstallHotkey { binding, daemon }) => {
                &&& binding == if k < args.len() {
                    args[k]
                } else {
                    "Print"@
                }
                &&& daemon <==> exists|j: int|
                    1 <= j < args.len() && #[trigger] args[j] == "--daemon"@
            },
            _ => false,
        },
{
    lemma_binding(args, 1, k);
}

/// Which command each first argument stands for, what the commands take from the second one, and
/// that everything else, and nothing at all, shows the overlay.
pub proof fn law_first_argument_chooses_the_command(args: Seq<Seq<char>>)
    ensures
        args.len() == 0 ==> command_of(args) == Ok::<CommandView, UsageError>(
            CommandView::Interactive,
        ),
        args.len() > 0 ==> {
            let c = command_of(args);
            let first = args[0];
            &&& first == "uninstall-hotkey"@ ==> c == Ok::<CommandView, UsageError>(
                CommandView::UninstallHotkey,
            )
            &&& first == "monitors"@ ==> c == Ok::<CommandView, UsageError>(CommandView::Monitors)
            &&& first == "daemon"@ ==> c == Ok::<CommandView, UsageError>(CommandView::Daemon)
            &&& first == "close"@ ==> c == Ok::<CommandView, UsageError>(CommandView::Close)
            &&& first == "trigger"@ ==> c == Ok::<CommandView, UsageError>(CommandView::Trigger)
            &&& first == "overlay"@ && args.len() == 1 ==> c == Err::<CommandView, UsageError>(
                UsageError::NoFramePath,
            )
            &&& first == "overlay"@ && args.len() > 1 ==> c == Ok::<CommandView, UsageError>(
                CommandView::Overlay { path: args[1] },
            )
            &&& first == "shot"@ && args.len() > 1 ==> c == Ok::<CommandView, UsageError>(
                CommandView::Shot { path: args[1] },
            )
            &&& first == "shot"@ && args.len() == 1 ==> c == Ok::<CommandView, UsageError>(
                CommandView::Shot { path: "/tmp/rayshot-capture.png"@ },
            )
            &&& first == "shot-pw"@ && args.len() > 1 ==> c == Ok::<CommandView, UsageError>(
                CommandView::ShotPw { path: args[1] },
            )
            &&& first == "shot-pw"@ && args.len() == 1 ==> c == Ok::<CommandView, UsageError>(
                CommandView::ShotPw { path: "/tmp/rayshot-pw.png"@ },
            )
            &&& first != "install-hotkey"@ && first != "uninstall-hotkey"@ && first != "monitors"@
                && first != "daemon"@ && first != "close"@ && first != "trigger"@ && first
                != "overlay"@ && first != "shot"@ && first != "shot-pw"@ ==> c == Ok::<
                CommandView,
                UsageError,
            >(CommandView::Interactive)
        },
{
    reveal_strlit("install-hotkey");
    reveal_strlit("uninstall-hotkey");
    reveal_strlit("monitors");
    reveal_strlit("daemon");
    reveal_strlit("overlay");
    reveal_strlit("close");
    reveal_strlit("trigger");
    reveal_strlit("shot-pw");
    reveal_strlit("shot");
    assert("install-hotkey"@.len() == 14 && "uninstall-hotkey"@.len() == 16);
    assert("monitors"@.len() == 8 && "daemon"@.len() == 6 && "overlay"@.len() == 7);
    assert("close"@.len() == 5 && "trigger"@.len() == 7 && "shot-pw"@.len() == 7);
    assert("shot"@.len() == 4);
    assert("overlay"@[0] == 'o' && "trigger"@[0] == 't' && "shot-pw"@[0] == 's');
}

} // verus!
