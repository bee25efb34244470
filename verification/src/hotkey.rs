//! The hotkey: which desktop settings and files installing and removing it changes.

use vstd::prelude::*;

use crate::text::{
    chars_of, joined, law_trim_is_idempotent, lemma_split_extend, lemma_split_parts,
    lemma_split_separator, same, split, split_parts, texts, trim, trimmed,
};

verus! {

/// The settings schema of the media keys.
pub const MEDIA_KEYS: &'static str = "org.gnome.settings-daemon.plugins.media-keys";

/// The path under which the hotkey is registered.
pub const KB_PATH: &'static str = "/org/gnome/settings-daemon/plugins/media-keys/custom-keybindings/rayshot/";

/// The settings schema of the shell's own key bindings.
pub const SHELL_KB: &'static str = "org.gnome.shell.keybindings";

/// The schema of the hotkey's own settings, with their path.
pub open spec fn kb_schema() -> Seq<char> {
    MEDIA_KEYS@ + ".custom-keybinding:"@ + KB_PATH@
}

/// The schema of the hotkey's own settings, with their path.
pub fn kb_schema_path() -> (r: String)
    ensures
        r@ == kb_schema(),
{
    let mut r = MEDIA_KEYS.to_owned();
    r.append(".custom-keybinding:");
    r.append(KB_PATH);
    r
}

/// Every second part, from the second one on.
pub open spec fn odd_parts(parts: Seq<Seq<char>>) -> Seq<Seq<char>> {
    Seq::new(parts.len() / 2, |i: int| parts[2 * i + 1])
}

/// The texts between single quotes.
pub open spec fn quoted_texts(s: Seq<char>) -> Seq<Seq<char>> {
    odd_parts(split_parts(s, '\''))
}

/// A text between single quotes.
pub open spec fn quote(p: Seq<char>) -> Seq<char> {
    seq!['\''] + p + seq!['\'']
}

/// Each of the texts between single quotes.
pub open spec fn quote_all(paths: Seq<Seq<char>>) -> Seq<Seq<char>> {
    Seq::new(paths.len(), |i: int| quote(paths[i]))
}

/// A list of texts as the settings write it.
pub open spec fn path_list(paths: Seq<Seq<char>>) -> Seq<char> {
    if paths.len() == 0 {
        "@as []"@
    } else {
        seq!['['] + joined(quote_all(paths), seq![',', ' ']) + seq![']']
    }
}

/// The paths in a list as the settings write it.
pub fn parse_paths(s: &str) -> (r: Vec<String>)
    ensures
        texts(r@) == quoted_texts(s@),
{
    let parts = split(s, '\'');
    assert(texts(parts@).len() == parts@.len());
    let n: usize = parts.len();
    let mut r: Vec<String> = Vec::new();
    let mut i: usize = 0;
    while i < n / 2
        invariant
            n == parts@.len(),
            i <= n / 2,
            texts(parts@) == split_parts(s@, '\''),
            r@.len() == i,
            forall|j: int| 0 <= j < i ==> (#[trigger] r@[j])@ == parts@[2 * j + 1]@,
        decreases n / 2 - i,
    {
        r.push(parts[2 * i + 1].clone());
        i = i + 1;
    }
    assert(texts(r@) =~= quoted_texts(s@));
    r
}

/// The list of paths as the settings write it.
pub fn format_paths(paths: &Vec<String>) -> (r: String)
    ensures
        r@ == path_list(texts(paths@)),
{
    let n: usize = paths.len();
    if n == 0 {
        return "@as []".to_owned();
    }
    let ghost all = quote_all(texts(paths@));
    let mut r = String::new();
    r.push('[');
    let mut i: usize = 0;
    assert(r@ =~= seq!['['] + joined(all.take(0), seq![',', ' ']));
    while i < n
        invariant
            i <= n,
            n == paths@.len(),
            all == quote_all(texts(paths@)),
            r@ == seq!['['] + joined(all.take(i as int), seq![',', ' ']),
        decreases n - i,
    {
        let ghost before = r@;
        let ghost items = joined(all.take(i as int), seq![',', ' ']);
        if i > 0 {
            r.push(',');
            r.push(' ');
        }
        r.push('\'');
        r.append(paths[i].as_str());
        r.push('\'');
        proof {
            let next = all.take(i + 1);
            assert(next.drop_last() =~= all.take(i as int));
            assert(next.last() == quote(paths@[i as int]@));
            if i > 0 {
                assert(r@ =~= before + seq![',', ' '] + quote(paths@[i as int]@));
                assert(joined(next, seq![',', ' ']) == items + seq![',', ' '] + next.last());
            } else {
                assert(items =~= Seq::empty());
                assert(r@ =~= before + quote(paths@[i as int]@));
            }
            assert(r@ =~= seq!['['] + joined(next, seq![',', ' ']));
        }
        i = i + 1;
    }
    assert(all.take(n as int) =~= all);
    r.push(']');
    assert(r@ =~= path_list(texts(paths@)));
    r
}

/// What a quoted text adds to the parts between the quotes.
proof fn lemma_split_quoted(s: Seq<char>, gap: Seq<char>, p: Seq<char>)
    requires
        !gap.contains('\''),
        !p.contains('\''),
    ensures
        split_parts(s + gap + quote(p), '\'') == split_parts(s, '\'').drop_last().push(
            split_parts(s, '\'').last() + gap,
        ).push(p).push(Seq::empty()),
{
    let q = '\'';
    let parts = split_parts(s, q);
    lemma_split_parts(s, q);
    lemma_split_extend(s, gap, q);
    let a = s + gap;
    lemma_split_separator(a, q);
    lemma_split_extend(a.push(q), p, q);
    let b = a.push(q) + p;
    lemma_split_separator(b, q);
    assert(s + gap + quote(p) =~= b.push(q));
    let pa = split_parts(a, q);
    assert(pa.push(Seq::empty()).drop_last() =~= pa);
    assert(Seq::<char>::empty() + p =~= p);
}

/// The parts of a list that is not closed yet: the texts stand at the odd places, and the last
/// part is empty.
proof fn lemma_open_list(paths: Seq<Seq<char>>, k: nat)
    requires
        1 <= k <= paths.len(),
        forall|i: int| 0 <= i < paths.len() ==> !(#[trigger] paths[i]).contains('\''),
    ensures
        ({
            let parts = split_parts(
                seq!['['] + joined(quote_all(paths.take(k as int)), seq![',', ' ']),
                '\'',
            );
            &&& parts.len() == 2 * k + 1
            &&& parts.last() == Seq::<char>::empty()
            &&& forall|i: int| 0 <= i < k ==> #[trigger] parts[2 * i + 1] == paths[i]
        }),
    decreases k,
{
    let q = '\'';
    let sep = seq![',', ' '];
    let head = seq!['['];
    let items = quote_all(paths.take(k as int));
    let p = paths[k - 1];
    assert(items.last() == quote(p));
    assert(!sep.contains(q)) by {
        assert(sep[0] != q && sep[1] != q);
    }
    if k == 1 {
        let none = Seq::<char>::empty();
        lemma_split_extend(none, head, q);
        assert(none + head =~= head);
        lemma_split_quoted(head, none, p);
        assert(head + none + quote(p) =~= head + joined(items, sep));
        assert(none + head + none =~= head);
    } else {
        lemma_open_list(paths, (k - 1) as nat);
        let before = head + joined(quote_all(paths.take(k - 1)), sep);
        let parts = split_parts(before, q);
        lemma_split_quoted(before, sep, p);
        assert(items.drop_last() =~= quote_all(paths.take(k - 1)));
        assert(before + sep + quote(p) =~= head + joined(items, sep));
        let after = split_parts(head + joined(items, sep), q);
        assert forall|i: int| 0 <= i < k implies #[trigger] after[2 * i + 1] == paths[i] by {
            if i < k - 1 {
                assert(parts[2 * i + 1] == paths[i]);
            }
        }
    }
}

/// Reading a written list of paths gives the paths back, if none of them contains a quote.
pub proof fn law_parse_of_format(paths: Seq<Seq<char>>)
    requires
        forall|i: int| 0 <= i < paths.len() ==> !(#[trigger] paths[i]).contains('\''),
    ensures
        quoted_texts(path_list(paths)) == paths,
{
    let q = '\'';
    if paths.len() == 0 {
        reveal_strlit("@as []");
        let none = Seq::<char>::empty();
        let s = "@as []"@;
        assert(!s.contains(q));
        lemma_split_extend(none, s, q);
        assert(none + s =~= s);
        assert(quoted_texts(s) =~= paths);
    } else {
        lemma_open_list(paths, paths.len());
        assert(paths.take(paths.len() as int) =~= paths);
        let open = seq!['['] + joined(quote_all(paths), seq![',', ' ']);
        let close = seq![']'];
        assert(!close.contains(q)) by {
            assert(close[0] != q);
        }
        lemma_split_extend(open, close, q);
        let parts = split_parts(open, q);
        let after = split_parts(open + close, q);
        assert forall|i: int| 0 <= i < paths.len() implies odd_parts(after)[i] == paths[i] by {
            assert(parts[2 * i + 1] == paths[i]);
        }
        assert(odd_parts(after) =~= paths);
    }
}

/// The paths with the hotkey's among them.
pub open spec fn with_path(paths: Seq<Seq<char>>) -> Seq<Seq<char>> {
    if paths.contains(KB_PATH@) {
        paths
    } else {
        paths.push(KB_PATH@)
    }
}

/// The paths other than the hotkey's.
pub open spec fn without_path(paths: Seq<Seq<char>>) -> Seq<Seq<char>>
    decreases paths.len(),
{
    if paths.len() == 0 {
        Seq::empty()
    } else if paths.last() == KB_PATH@ {
        without_path(paths.drop_last())
    } else {
        without_path(paths.drop_last()).push(paths.last())
    }
}

/// Where the hotkey's path is not among them, all of the paths are others.
proof fn lemma_without_path_unchanged(paths: Seq<Seq<char>>)
    requires
        !paths.contains(KB_PATH@),
    ensures
        without_path(paths) == paths,
    decreases paths.len(),
{
    if paths.len() > 0 {
        let init = paths.drop_last();
        assert(!init.contains(KB_PATH@)) by {
            if init.contains(KB_PATH@) {
                let k = choose|k: int| 0 <= k < init.len() && init[k] == KB_PATH@;
                assert(paths[k] == KB_PATH@);
            }
        }
        assert(paths.last() != KB_PATH@) by {
            assert(paths[paths.len() - 1] == paths.last());
        }
        lemma_without_path_unchanged(init);
        assert(init.push(paths.last()) =~= paths);
    } else {
        assert(without_path(paths) =~= paths);
    }
}

/// Installing twice registers the hotkey once.
pub proof fn law_install_is_idempotent(paths: Seq<Seq<char>>)
    ensures
        with_path(paths).contains(KB_PATH@),
        with_path(with_path(paths)) == with_path(paths),
{
    let after = with_path(paths);
    if !paths.contains(KB_PATH@) {
        assert(after[paths.len() as int] == KB_PATH@);
    }
}

/// Removing the hotkey after installing it leaves the other paths as they were.
pub proof fn law_uninstall_reverts_install(paths: Seq<Seq<char>>)
    ensures
        without_path(with_path(paths)) == without_path(paths),
        !paths.contains(KB_PATH@) ==> without_path(with_path(paths)) == paths,
{
    if !paths.contains(KB_PATH@) {
        assert(with_path(paths).drop_last() =~= paths);
        lemma_without_path_unchanged(paths);
    }
}

/// Removing the hotkey leaves no trace of its path.
pub proof fn law_uninstall_removes_path(paths: Seq<Seq<char>>)
    ensures
        !without_path(paths).contains(KB_PATH@),
    decreases paths.len(),
{
    if paths.len() > 0 {
        law_uninstall_removes_path(paths.drop_last());
        let rest = without_path(paths.drop_last());
        let after = without_path(paths);
        if after.contains(KB_PATH@) {
            let k = choose|k: int| 0 <= k < after.len() && after[k] == KB_PATH@;
            if k < rest.len() {
                assert(rest[k] == KB_PATH@);
            }
        }
    }
}

/// Whatever list the settings hold, the list that installing writes is read back as the same
/// paths with the hotkey's among them.
pub proof fn law_installed_list_reads_back(list: Seq<char>)
    ensures
        quoted_texts(path_list(with_path(quoted_texts(list)))) == with_path(quoted_texts(list)),
{
    let q = '\'';
    let paths = quoted_texts(list);
    let after = with_path(paths);
    lemma_split_parts(list, q);
    reveal_strlit(
        "/org/gnome/settings-daemon/plugins/media-keys/custom-keybindings/rayshot/",
    );
    assert(!KB_PATH@.contains(q));
    assert forall|i: int| 0 <= i < after.len() implies !(#[trigger] after[i]).contains(q) by {
        if i < paths.len() {
            assert(after[i] == paths[i]);
            assert(paths[i] == split_parts(list, q)[2 * i + 1]);
        }
    }
    law_parse_of_format(after);
}

/// Whatever list the settings hold, removing the hotkey after installing it writes the list that
/// removing it at once would have written.
pub proof fn law_uninstall_after_install_writes_same_list(list: Seq<char>)
    ensures
        path_list(without_path(quoted_texts(path_list(with_path(quoted_texts(list)))))) == path_list(
            without_path(quoted_texts(list)),
        ),
{
    law_installed_list_reads_back(list);
    law_uninstall_reverts_install(quoted_texts(list));
}

/// Something that installing or removing the hotkey does.
pub enum Step {
    /// Sets a key of a settings schema.
    Change { schema: String, key: String, value: String },
    /// Keeps the shell's own binding of the Print key.
    WriteBackup { binding: String },
    /// Forgets the shell's own binding of the Print key.
    RemoveBackup,
    /// Writes the file that starts the daemon at login.
    WriteAutostart { content: String },
    /// Removes the file that starts the daemon at login.
    RemoveAutostart,
    /// Starts the daemon.
    StartDaemon,
    /// Tells the user what was done.
    Say { line: String },
}

/// The contents of a `Step`.
pub enum StepView {
    Change { schema: Seq<char>, key: Seq<char>, value: Seq<char> },
    WriteBackup { binding: Seq<char> },
    RemoveBackup,
    WriteAutostart { content: Seq<char> },
    RemoveAutostart,
    StartDaemon,
    Say { line: Seq<char> },
}

impl View for Step {
    type V = StepView;

    open spec fn view(&self) -> StepView {
        match *self {
            Step::Change { schema, key, value } => StepView::Change {
                schema: schema@,
                key: key@,
                value: value@,
            },
            Step::WriteBackup { binding } => StepView::WriteBackup { binding: binding@ },
            Step::RemoveBackup => StepView::RemoveBackup,
            Step::WriteAutostart { content } => StepView::WriteAutostart { content: content@ },
            Step::RemoveAutostart => StepView::RemoveAutostart,
            Step::StartDaemon => StepView::StartDaemon,
            Step::Say { line } => StepView::Say { line: line@ },
        }
    }
}

/// The contents of a list of steps.
pub open spec fn step_views(steps: Seq<Step>) -> Seq<StepView> {
    Seq::new(steps.len(), |i: int| steps[i]@)
}

/// The binding is the Print key, in whatever case it is written.
pub open spec fn is_print(binding: Seq<char>) -> bool {
    &&& binding.len() == 5
    &&& binding[0] == 'P' || binding[0] == 'p'
    &&& binding[1] == 'R' || binding[1] == 'r'
    &&& binding[2] == 'I' || binding[2] == 'i'
    &&& binding[3] == 'N' || binding[3] == 'n'
    &&& binding[4] == 'T' || binding[4] == 't'
}

/// The value of a setting that could be read, and the empty text otherwise.
pub open spec fn or_empty(value: Option<Seq<char>>) -> Seq<char> {
    match value {
        Some(v) => v,
        None => Seq::empty(),
    }
}

/// What an optional string holds.
pub open spec fn text_of(value: Option<&String>) -> Option<Seq<char>> {
    match value {
        Some(v) => Some(v@),
        None => None,
    }
}

/// The command that the hotkey runs.
pub open spec fn hotkey_command(exe: Seq<char>, daemon: bool) -> Seq<char> {
    if daemon {
        exe + " trigger"@
    } else {
        exe
    }
}

/// The file that starts the daemon at login.
pub open spec fn autostart_entry(exe: Seq<char>) -> Seq<char> {
    "[Desktop Entry]\nType=Application\nName=rayshot daemon\nComment=rayshot instant screenshot daemon\nExec="@
        + exe + " daemon\nX-GNOME-Autostart-enabled=true\nNoDisplay=true\n"@
}

/// Frees the Print key from the shell, whose binding is kept unless one is kept already.
pub open spec fn free_print_steps(shell: Option<Seq<char>>, kept: bool) -> Seq<StepView> {
    let disable = StepView::Change {
        schema: SHELL_KB@,
        key: "show-screenshot-ui"@,
        value: "@as []"@,
    };
    match shell {
        Some(binding) => if kept {
            seq![disable]
        } else {
            seq![StepView::WriteBackup { binding }, disable]
        },
        None => seq![disable],
    }
}

/// Registers the hotkey.
pub open spec fn register_steps(
    binding: Seq<char>,
    command: Seq<char>,
    list: Option<Seq<char>>,
) -> Seq<StepView> {
    seq![
        StepView::Change { schema: kb_schema(), key: "name"@, value: "rayshot"@ },
        StepView::Change { schema: kb_schema(), key: "command"@, value: command },
        StepView::Change { schema: kb_schema(), key: "binding"@, value: binding },
        StepView::Change {
            schema: MEDIA_KEYS@,
            key: "custom-keybindings"@,
            value: path_list(with_path(quoted_texts(or_empty(list)))),
        },
    ]
}

/// Sets the daemon up, or makes sure that it is not started at login.
pub open spec fn daemon_steps(
    binding: Seq<char>,
    command: Seq<char>,
    exe: Seq<char>,
    daemon: bool,
) -> Seq<StepView> {
    if daemon {
        seq![
            StepView::WriteAutostart { content: autostart_entry(exe) },
            StepView::StartDaemon,
            StepView::Say {
                line: "rayshot hotkey installed (daemon mode): "@ + binding + " -> "@ + command,
            },
            StepView::Say { line: "daemon autostart enabled and started"@ },
        ]
    } else {
        seq![
            StepView::RemoveAutostart,
            StepView::Say { line: "rayshot hotkey installed: "@ + binding + " -> "@ + command },
        ]
    }
}

/// All that installing the hotkey does, in order.
pub open spec fn install_steps(
    binding: Seq<char>,
    daemon: bool,
    exe: Seq<char>,
    shell: Option<Seq<char>>,
    kept: bool,
    list: Option<Seq<char>>,
) -> Seq<StepView> {
    let command = hotkey_command(exe, daemon);
    (if is_print(binding) {
        free_print_steps(shell, kept)
    } else {
        Seq::empty()
    }) + register_steps(binding, command, list) + daemon_steps(binding, command, exe, daemon)
}

/// The binding that the Print key gets back.
pub open spec fn restored_binding(kept: Option<Seq<char>>) -> Seq<char> {
    match kept {
        Some(binding) => trimmed(binding),
        None => "['Print']"@,
    }
}

/// The value of a setting, from what the settings tool printed, if it could be run.
pub fn gget(output: Option<&String>) -> (r: Option<String>)
    ensures
        match (output, r) {
            (Some(text), Some(value)) => value@ == trimmed(text@),
            (None, None) => true,
            _ => false,
        },
{
    match output {
        Some(text) => Some(trim(text.as_str())),
        None => None,
    }
}

/// The binding of the Print key that was read from the settings, trimmed, and kept is the one
/// that it gets back.
pub proof fn law_kept_binding_is_restored(output: Seq<char>)
    ensures
        restored_binding(Some(trimmed(output))) == trimmed(output),
{
    law_trim_is_idempotent(output);
}

/// All that removing the hotkey does, in order.
pub open spec fn uninstall_steps(list: Option<Seq<char>>, kept: Option<Seq<char>>) -> Seq<StepView> {
    seq![
        StepView::Change {
            schema: MEDIA_KEYS@,
            key: "custom-keybindings"@,
            value: path_list(without_path(quoted_texts(or_empty(list)))),
        },
        StepView::Change {
            schema: SHELL_KB@,
            key: "show-screenshot-ui"@,
            value: restored_binding(kept),
        },
        StepView::RemoveBackup,
        StepView::RemoveAutostart,
        StepView::Say {
            line: "rayshot hotkey removed; GNOME Print restored to "@ + restored_binding(kept),
        },
        StepView::Say {
            line: "daemon autostart disabled (running daemon, if any, stays until logout)"@,
        },
    ]
}

/// Whether the binding is the Print key, in whatever case it is written.
pub fn binds_print(binding: &str) -> (r: bool)
    ensures
        r == is_print(binding@),
{
    let c = chars_of(binding);
    c.len() == 5 && (c[0] == 'P' || c[0] == 'p') && (c[1] == 'R' || c[1] == 'r') && (c[2] == 'I'
        || c[2] == 'i') && (c[3] == 'N' || c[3] == 'n') && (c[4] == 'T' || c[4] == 't')
}

/// A step that sets a key.
fn set(schema: &str, key: &str, value: &str) -> (r: Step)
    ensures
        r@ == (StepView::Change { schema: schema@, key: key@, value: value@ }),
{
    Step::Change { schema: schema.to_owned(), key: key.to_owned(), value: value.to_owned() }
}

/// The command that the hotkey runs.
fn command_for(exe: &str, daemon: bool) -> (r: String)
    ensures
        r@ == hotkey_command(exe@, daemon),
{
    let mut r = exe.to_owned();
    if daemon {
        r.append(" trigger");
    }
    r
}

/// The file that starts the daemon at login.
pub fn write_autostart(exe: &str) -> (r: String)
    ensures
        r@ == autostart_entry(exe@),
{
    let mut r =
        "[Desktop Entry]\nType=Application\nName=rayshot daemon\nComment=rayshot instant screenshot daemon\nExec=".to_owned();
    r.append(exe);
    r.append(" daemon\nX-GNOME-Autostart-enabled=true\nNoDisplay=true\n");
    r
}

/// The settings' list of paths with the hotkey's among them.
fn registered(list: Option<&String>) -> (r: Vec<String>)
    ensures
        texts(r@) == with_path(quoted_texts(or_empty(text_of(list)))),
{
    let mut paths = match list {
        Some(list) => parse_paths(list.as_str()),
        None => parse_paths(""),
    };
    proof {
        reveal_strlit("");
        assert(""@ =~= Seq::<char>::empty());
    }
    let ghost before = texts(paths@);
    let n: usize = paths.len();
    let mut i: usize = 0;
    while i < n
        invariant
            i <= n,
            n == paths@.len(),
            before == texts(paths@),
            before == quoted_texts(or_empty(text_of(list))),
            forall|j: int| 0 <= j < i ==> #[trigger] before[j] != KB_PATH@,
        decreases n - i,
    {
        if same(paths[i].as_str(), KB_PATH) {
            assert(before[i as int] == KB_PATH@);
            return paths;
        }
        i = i + 1;
    }
    assert(!before.contains(KB_PATH@));
    paths.push(KB_PATH.to_owned());
    assert(texts(paths@) =~= before.push(KB_PATH@));
    paths
}

/// The settings' list of paths without the hotkey's.
fn unregistered(list: Option<&String>) -> (r: Vec<String>)
    ensures
        texts(r@) == without_path(quoted_texts(or_empty(text_of(list)))),
{
    let paths = match list {
        Some(list) => parse_paths(list.as_str()),
        None => parse_paths(""),
    };
    proof {
        reveal_strlit("");
        assert(""@ =~= Seq::<char>::empty());
    }
    let ghost all = texts(paths@);
    let n: usize = paths.len();
    let mut r: Vec<String> = Vec::new();
    let mut i: usize = 0;
    assert(texts(r@) =~= without_path(all.take(0)));
    while i < n
        invariant
            i <= n,
            n == paths@.len(),
            all == texts(paths@),
            texts(r@) == without_path(all.take(i as int)),
        decreases n - i,
    {
        let ghost before = texts(r@);
        assert(all.take(i + 1).drop_last() =~= all.take(i as int));
        if !same(paths[i].as_str(), KB_PATH) {
            r.push(paths[i].clone());
            assert(texts(r@) =~= before.push(all[i as int]));
        }
        i = i + 1;
    }
    assert(all.take(n as int) =~= all);
    r
}

/// Adds a step.
fn plan(steps: &mut Vec<Step>, step: Step)
    ensures
        step_views(final(steps)@) == step_views(old(steps)@).push(step@),
{
    let ghost before = steps@;
    steps.push(step);
    assert(step_views(steps@) =~= step_views(before).push(step@));
}

/// What installing the hotkey does: frees the Print key from the shell if that is the key,
/// registers the hotkey beside the ones there are, and sets the daemon up if it is wanted.
/// `shell` is the shell's own binding of the Print key, `kept` whether one is kept already, and
/// `list` the registered hotkeys, as far as the settings could be read.
pub fn install(
    binding: &str,
    daemon: bool,
    exe: &str,
    shell: Option<&String>,
    kept: bool,
    list: Option<&String>,
) -> (r: Vec<Step>)
    ensures
        step_views(r@) == install_steps(
            binding@,
            daemon,
            exe@,
            text_of(shell),
            kept,
            text_of(list),
        ),
{
    let command = command_for(exe, daemon);
    let mut steps: Vec<Step> = Vec::new();
    assert(step_views(steps@) =~= Seq::<StepView>::empty());
    if binds_print(binding) {
        if let Some(shell) = shell {
            if !kept {
                plan(&mut steps, Step::WriteBackup { binding: shell.clone() });
            }
        }
        plan(&mut steps, set(SHELL_KB, "show-screenshot-ui", "@as []"));
        assert(step_views(steps@) =~= free_print_steps(text_of(shell), kept));
    }
    let ghost freed = step_views(steps@);
    let schema = kb_schema_path();
    plan(&mut steps, set(schema.as_str(), "name", "rayshot"));
    plan(&mut steps, set(schema.as_str(), "command", command.as_str()));
    plan(&mut steps, set(schema.as_str(), "binding", binding));
    let paths = registered(list);
    let value = format_paths(&paths);
    plan(&mut steps, set(MEDIA_KEYS, "custom-keybindings", value.as_str()));
    let ghost registering = register_steps(binding@, command@, text_of(list));
    assert(step_views(steps@) =~= freed + registering);
    if daemon {
        plan(&mut steps, Step::WriteAutostart { content: write_autostart(exe) });
        plan(&mut steps, Step::StartDaemon);
        let mut line = "rayshot hotkey installed (daemon mode): ".to_owned();
        line.append(binding);
        line.append(" -> ");
        line.append(command.as_str());
        plan(&mut steps, Step::Say { line });
        plan(&mut steps, Step::Say { line: "daemon autostart enabled and started".to_owned() });
    } else {
        plan(&mut steps, Step::RemoveAutostart);
        let mut line = "rayshot hotkey installed: ".to_owned();
        line.append(binding);
        line.append(" -> ");
        line.append(command.as_str());
        plan(&mut steps, Step::Say { line });
    }
    assert(step_views(steps@) =~= freed + registering + daemon_steps(
        binding@,
        command@,
        exe@,
        daemon,
    ));
    steps
}

/// What removing the hotkey does: takes it out of the registered ones, gives the Print key its
/// binding back, `kept` if one was kept, and stops the daemon from being started at login.
pub fn uninstall(list: Option<&String>, kept: Option<&String>) -> (r: Vec<Step>)
    ensures
        step_views(r@) == uninstall_steps(text_of(list), text_of(kept)),
{
    let mut steps: Vec<Step> = Vec::new();
    let paths = unregistered(list);
    let value = format_paths(&paths);
    plan(&mut steps, set(MEDIA_KEYS, "custom-keybindings", value.as_str()));
    let binding = match kept {
        Some(kept) => trim(kept.as_str()),
        None => "['Print']".to_owned(),
    };
    plan(&mut steps, set(SHELL_KB, "show-screenshot-ui", binding.as_str()));
    plan(&mut steps, Step::RemoveBackup);
    plan(&mut steps, Step::RemoveAutostart);
    let mut line = "rayshot hotkey removed; GNOME Print restored to ".to_owned();
    line.append(binding.as_str());
    plan(&mut steps, Step::Say { line });
    plan(
        &mut steps,
        Step::Say {
            line: "daemon autostart disabled (running daemon, if any, stays until logout)".to_owned(),
        },
    );
    assert(step_views(steps@) =~= uninstall_steps(text_of(list), text_of(kept)));
    steps
}

/// Registering adds the hotkey's path behind the others, unless it is there already, and changes
/// none of them.
pub proof fn law_registering_adds_one_path(paths: Seq<Seq<char>>, i: int)
    requires
        0 <= i < paths.len(),
    ensures
        with_path(paths)[i] == paths[i],
        paths[i] == KB_PATH@ ==> with_path(paths) == paths,
        !paths.contains(KB_PATH@) ==> with_path(paths).len() == paths.len() + 1 && with_path(
            paths,
        )[paths.len() as int] == KB_PATH@,
{
}

/// Unregistering keeps every other path, in order, and drops every occurrence of the hotkey's.
pub proof fn law_unregistering_keeps_other_paths(paths: Seq<Seq<char>>, p: Seq<char>)
    ensures
        without_path(Seq::empty()).len() == 0,
        p == KB_PATH@ ==> without_path(paths.push(p)) == without_path(paths),
        p != KB_PATH@ ==> without_path(paths.push(p)) == without_path(paths).push(p),
{
    assert(paths.push(p).drop_last() =~= paths);
}

/// How a list of texts is written: each between quotes, with a comma and a space between one and
/// the next, all in brackets; and an empty list with its type.
pub proof fn law_written_list_of_texts(paths: Seq<Seq<char>>, p: Seq<char>)
    ensures
        path_list(Seq::empty()) == seq!['@', 'a', 's', ' ', '[', ']'],
        path_list(seq![p]) == seq!['[', '\''] + p + seq!['\'', ']'],
        paths.len() > 0 ==> path_list(paths.push(p)) == path_list(paths).drop_last()
            + seq![',', ' ', '\''] + p + seq!['\'', ']'],
{
    reveal_strlit("@as []");
    assert("@as []"@ =~= seq!['@', 'a', 's', ' ', '[', ']']);
    let one = quote_all(seq![p]);
    assert(one =~= seq![quote(p)]);
    assert(path_list(seq![p]) =~= seq!['[', '\''] + p + seq!['\'', ']']);
    if paths.len() > 0 {
        let all = quote_all(paths.push(p));
        let sep = seq![',', ' '];
        assert(all.drop_last() =~= quote_all(paths));
        assert(all.last() == quote(p));
        assert(joined(all, sep) == joined(quote_all(paths), sep) + sep + quote(p));
        assert(path_list(paths).drop_last() =~= seq!['['] + joined(quote_all(paths), sep));
        assert(path_list(paths.push(p)) =~= path_list(paths).drop_last() + seq![',', ' ', '\''] + p
            + seq!['\'', ']']);
    }
}

/// Behind a text with no open quote, a quoted text is one more of the texts between quotes, and
/// what has no quote adds none.
pub proof fn law_quoted_text_is_found(s: Seq<char>, gap: Seq<char>, p: Seq<char>)
    requires
        split_parts(s, '\'').len() % 2 == 1,
        !gap.contains('\''),
        !p.contains('\''),
    ensures
        quoted_texts(Seq::empty()).len() == 0,
        quoted_texts(s + gap) == quoted_texts(s),
        quoted_texts(s + gap + seq!['\''] + p + seq!['\'']) == quoted_texts(s).push(p),
{
    let q = '\'';
    let parts = split_parts(s, q);
    lemma_split_extend(s, gap, q);
    lemma_split_quoted(s, gap, p);
    let more = split_parts(s + gap, q);
    let after = split_parts(s + gap + quote(p), q);
    assert(s + gap + quote(p) =~= s + gap + seq!['\''] + p + seq!['\'']);
    assert forall|i: int| 0 <= i < odd_parts(parts).len() implies odd_parts(parts)[i] == odd_parts(
        more,
    )[i] && odd_parts(parts)[i] == odd_parts(after)[i] by {
        assert(more[2 * i + 1] == parts[2 * i + 1]);
        assert(after[2 * i + 1] == parts[2 * i + 1]);
    }
    assert(odd_parts(more) =~= odd_parts(parts));
    let n = odd_parts(parts).len() as int;
    assert(2 * n + 1 == parts.len());
    assert(after[2 * n + 1] == p);
    assert(odd_parts(after) =~= odd_parts(parts).push(p));
}

/// The hotkey is the Print key if each of its letters is that of the word, large or small.
pub proof fn law_print_in_any_case(binding: Seq<char>)
    ensures
        is_print(binding) <==> {
            &&& binding.len() == 5
            &&& forall|i: int|
                0 <= i < 5 ==> #[trigger] binding[i] == "PRINT"@[i] || binding[i] == "print"@[i]
        },
{
    reveal_strlit("PRINT");
    reveal_strlit("print");
    if binding.len() == 5 && forall|i: int|
        0 <= i < 5 ==> #[trigger] binding[i] == "PRINT"@[i] || binding[i] == "print"@[i] {
        assert(binding[0] == "PRINT"@[0] || binding[0] == "print"@[0]);
        assert(binding[1] == "PRINT"@[1] || binding[1] == "print"@[1]);
        assert(binding[2] == "PRINT"@[2] || binding[2] == "print"@[2]);
        assert(binding[3] == "PRINT"@[3] || binding[3] == "print"@[3]);
        assert(binding[4] == "PRINT"@[4] || binding[4] == "print"@[4]);
    }
}

/// What installing the hotkey sets: the hotkey's name, its command, which triggers the daemon if
/// that is wanted, and its binding; the list of hotkeys, in which it comes behind the others; and
/// the shell's binding of the Print key to nothing, if that is the key.
pub proof fn law_install_sets_the_hotkey(
    binding: Seq<char>,
    daemon: bool,
    exe: Seq<char>,
    shell: Option<Seq<char>>,
    kept: bool,
    list: Option<Seq<char>>,
)
    ensures
        ({
            let steps = install_steps(binding, daemon, exe, shell, kept, list);
            let paths = match list {
                Some(text) => quoted_texts(text),
                None => Seq::empty(),
            };
            let own = MEDIA_KEYS@ + ".custom-keybinding:"@ + KB_PATH@;
            &&& steps.contains(
                StepView::Change { schema: own, key: "name"@, value: "rayshot"@ },
            )
            &&& steps.contains(
                StepView::Change {
                    schema: own,
                    key: "command"@,
                    value: if daemon {
                        exe + " trigger"@
                    } else {
                        exe
                    },
                },
            )
            &&& steps.contains(
                StepView::Change { schema: own, key: "binding"@, value: binding },
            )
            &&& steps.contains(
                StepView::Change {
                    schema: MEDIA_KEYS@,
                    key: "custom-keybindings"@,
                    value: path_list(
                        if paths.contains(KB_PATH@) {
                            paths
                        } else {
                            paths.push(KB_PATH@)
                        },
                    ),
                },
            )
            &&& is_print(binding) <==> steps.contains(
                StepView::Change {
                    schema: SHELL_KB@,
                    key: "show-screenshot-ui"@,
                    value: "@as []"@,
                },
            )
        }),
{
    let steps = install_steps(binding, daemon, exe, shell, kept, list);
    let paths = quoted_texts(or_empty(list));
    let none = Seq::<char>::empty();
    assert(split_parts(none, '\'').len() == 1);
    if list is None {
        assert(paths =~= Seq::empty());
    }
    let free = if is_print(binding) {
        free_print_steps(shell, kept)
    } else {
        Seq::empty()
    };
    let command = hotkey_command(exe, daemon);
    let register = register_steps(binding, command, list);
    let n = free.len() as int;
    assert(steps[n] == register[0]);
    assert(steps[n + 1] == register[1]);
    assert(steps[n + 2] == register[2]);
    assert(steps[n + 3] == register[3]);
    let disable = StepView::Change {
        schema: SHELL_KB@,
        key: "show-screenshot-ui"@,
        value: "@as []"@,
    };
    reveal_strlit("org.gnome.shell.keybindings");
    reveal_strlit("org.gnome.settings-daemon.plugins.media-keys");
    assert(SHELL_KB@.len() == 27);
    assert(MEDIA_KEYS@.len() == 44);
    assert(kb_schema().len() >= 44);
    if is_print(binding) {
        assert(steps[n - 1] == disable);
    } else if steps.contains(disable) {
        let k = choose|k: int| 0 <= k < steps.len() && steps[k] == disable;
        if k < 4 {
            assert(steps[k] == register[k]);
        }
    }
}

/// Installing keeps the shell's own binding of the Print key exactly if it takes that key away,
/// the binding is known and none is kept yet, and what it keeps is that binding. The daemon is
/// started, now and at login, exactly if it is wanted, and else it is no longer started at login.
pub proof fn law_install_keeps_the_shells_binding(
    binding: Seq<char>,
    daemon: bool,
    exe: Seq<char>,
    shell: Option<Seq<char>>,
    kept: bool,
    list: Option<Seq<char>>,
    i: int,
)
    requires
        0 <= i < install_steps(binding, daemon, exe, shell, kept, list).len(),
    ensures
        ({
            let steps = install_steps(binding, daemon, exe, shell, kept, list);
            &&& is_print(binding) && shell is Some && !kept ==> steps[0]
                == (StepView::WriteBackup { binding: shell->Some_0 })
            &&& steps[i] is WriteBackup ==> is_print(binding) && shell is Some && !kept
                && steps[i]->WriteBackup_binding == shell->Some_0
            &&& !(steps[i] is RemoveBackup)
            &&& steps[i] is StartDaemon ==> daemon
            &&& steps[i] is WriteAutostart ==> daemon && steps[i]->content == autostart_entry(exe)
            &&& steps[i] is RemoveAutostart ==> !daemon
            &&& daemon ==> steps.contains(StepView::StartDaemon) && steps.contains(
                StepView::WriteAutostart { content: autostart_entry(exe) },
            )
            &&& !daemon ==> steps.contains(StepView::RemoveAutostart)
        }),
{
    let steps = install_steps(binding, daemon, exe, shell, kept, list);
    let free = if is_print(binding) {
        free_print_steps(shell, kept)
    } else {
        Seq::empty()
    };
    let command = hotkey_command(exe, daemon);
    let register = register_steps(binding, command, list);
    let rest = daemon_steps(binding, command, exe, daemon);
    let n = free.len() as int;
    if i < n {
        assert(steps[i] == free[i]);
    } else if i < n + 4 {
        assert(steps[i] == register[i - n]);
    } else {
        assert(steps[i] == rest[i - n - 4]);
    }
    assert(steps[n + 4] == rest[0]);
    assert(steps[n + 5] == rest[1]);
    if n > 0 {
        assert(steps[0] == free[0]);
    }
}

/// What removing the hotkey sets: the list of hotkeys without it, and the shell's binding of the
/// Print key to the one that was kept, or to the Print key if none was. What was kept is
/// forgotten, and the daemon is no longer started at login.
pub proof fn law_uninstall_takes_everything_back(
    list: Option<Seq<char>>,
    kept: Option<Seq<char>>,
    i: int,
)
    requires
        0 <= i < uninstall_steps(list, kept).len(),
    ensures
        ({
            let steps = uninstall_steps(list, kept);
            let binding = match kept {
                Some(text) => trimmed(text),
                None => "['Print']"@,
            };
            let rest = match list {
                Some(text) => without_path(quoted_texts(text)),
                None => Seq::empty(),
            };
            &&& steps.contains(
                StepView::Change {
                    schema: MEDIA_KEYS@,
                    key: "custom-keybindings"@,
                    value: path_list(rest),
                },
            )
            &&& steps.contains(
                StepView::Change {
                    schema: SHELL_KB@,
                    key: "show-screenshot-ui"@,
                    value: binding,
                },
            )
            &&& steps.contains(StepView::RemoveBackup)
            &&& steps.contains(StepView::RemoveAutostart)
            &&& !(steps[i] is WriteBackup)
            &&& !(steps[i] is WriteAutostart)
            &&& !(steps[i] is StartDaemon)
        }),
{
    let steps = uninstall_steps(list, kept);
    let none = Seq::<char>::empty();
    assert(split_parts(none, '\'').len() == 1);
    if list is None {
        let paths = quoted_texts(or_empty(list));
        assert(paths =~= Seq::empty());
        assert(without_path(paths) =~= Seq::empty());
    }
    assert(steps[0] is Change);
    assert(steps[1] is Change);
    assert(steps[2] == StepView::RemoveBackup);
    assert(steps[3] == StepView::RemoveAutostart);
}

} // verus!
