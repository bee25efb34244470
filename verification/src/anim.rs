//! The desktop's animations and event sounds, which are off while the overlay is shown.

use vstd::prelude::*;

use crate::text::{
    decimal, joined, law_decimal_reads_as_the_number, law_first_separator_divides,
    law_split_of_join, lemma_decimal_digits, line_parts, lines, parts_at_first, push_decimal, same,
    split_once, split_parts, texts, trim, trimmed, without_cr,
};

verus! {

/// A settings key: its schema and its name.
pub type Setting = (String, String);

/// The contents of a settings key.
pub type SettingView = (Seq<char>, Seq<char>);

/// The contents of a list of settings keys.
pub open spec fn setting_views(v: Seq<Setting>) -> Seq<SettingView> {
    Seq::new(v.len(), |i: int| (v[i].0@, v[i].1@))
}

/// The settings that are turned off while the overlay is shown.
pub open spec fn quieted_settings() -> Seq<SettingView> {
    seq![
        ("org.gnome.desktop.interface"@, "enable-animations"@),
        ("org.gnome.desktop.sound"@, "event-sounds"@),
    ]
}

/// The settings that are turned off while the overlay is shown.
pub fn settings() -> (r: Vec<Setting>)
    ensures
        setting_views(r@) == quieted_settings(),
{
    let mut r: Vec<Setting> = Vec::new();
    r.push(("org.gnome.desktop.interface".to_owned(), "enable-animations".to_owned()));
    r.push(("org.gnome.desktop.sound".to_owned(), "event-sounds".to_owned()));
    assert(setting_views(r@) =~= quieted_settings());
    r
}

/// Whether a setting is on, from what the settings tool printed, if it could be run.
pub fn get_bool(output: Option<&String>) -> (r: bool)
    ensures
        r == match output {
            Some(text) => trimmed(text@) == "true"@,
            None => false,
        },
{
    match output {
        Some(text) => {
            let value = trim(text.as_str());
            same(value.as_str(), "true")
        },
        None => false,
    }
}

/// The value that is written to turn a setting on or off.
pub fn set_bool(val: bool) -> (r: &'static str)
    ensures
        r@ == if val {
            "true"@
        } else {
            "false"@
        },
{
    if val {
        "true"
    } else {
        "false"
    }
}

/// A text that no other process or moment gives.
pub open spec fn token_text(pid: u32, nanos: u128) -> Seq<char> {
    "tok-"@ + decimal(pid as nat) + seq!['-'] + decimal(nanos as nat)
}

/// The token of this process at this moment.
pub fn make_token(pid: u32, nanos: u128) -> (r: String)
    ensures
        r@ == token_text(pid, nanos),
{
    let mut r = "tok-".to_owned();
    push_decimal(&mut r, pid as u128);
    r.push('-');
    push_decimal(&mut r, nanos);
    assert(r@ =~= token_text(pid, nanos));
    r
}

/// The first `n` of `all` for which the flag is set.
pub open spec fn chosen(all: Seq<SettingView>, flags: Seq<bool>, n: int) -> Seq<SettingView>
    decreases n,
{
    if n <= 0 {
        Seq::empty()
    } else if flags[n - 1] {
        chosen(all, flags, n - 1).push(all[n - 1])
    } else {
        chosen(all, flags, n - 1)
    }
}

/// The line that names a setting.
pub open spec fn setting_line(s: SettingView) -> Seq<char> {
    s.0 + seq![' '] + s.1
}

/// The lines of the marker file: the token, then the settings that were turned off.
pub open spec fn marker_lines(token: Seq<char>, off: Seq<SettingView>) -> Seq<Seq<char>> {
    Seq::new(
        off.len() + 1,
        |i: int|
            if i == 0 {
                token
            } else {
                setting_line(off[i - 1])
            },
    )
}

/// The marker file, which says what there is to restore.
pub open spec fn marker_text(token: Seq<char>, off: Seq<SettingView>) -> Seq<char> {
    joined(marker_lines(token, off), seq!['\n'])
}

/// Whether there is something to restore once the overlay is gone.
pub struct AnimationGuard {
    pub restore: bool,
}

/// What turning the animations off comes down to.
pub struct Quieting {
    pub guard: AnimationGuard,
    /// The settings to turn off.
    pub off: Vec<Setting>,
    /// What to write to the marker file, if anything is turned off.
    pub marker: Option<String>,
}

impl AnimationGuard {
    /// Turns off those of the settings that are on, unless the user wants to keep them.
    pub fn disable(keep: bool, enabled: &Vec<bool>, token: &str) -> (r: Quieting)
        requires
            !keep ==> enabled@.len() == quieted_settings().len(),
        ensures
            ({
                let off = if keep {
                    Seq::empty()
                } else {
                    chosen(quieted_settings(), enabled@, enabled@.len() as int)
                };
                &&& setting_views(r.off@) == off
                &&& r.guard.restore == (off.len() > 0)
                &&& match r.marker {
                    Some(marker) => off.len() > 0 && marker@ == marker_text(token@, off),
                    None => off.len() == 0,
                }
            }),
    {
        let mut off: Vec<Setting> = Vec::new();
        assert(setting_views(off@) =~= Seq::<SettingView>::empty());
        if keep {
            return Quieting { guard: AnimationGuard { restore: false }, off, marker: None };
        }
        let all = settings();
        let ghost views = setting_views(all@);
        let n: usize = all.len();
        let mut content = token.to_owned();
        let mut i: usize = 0;
        assert(marker_lines(token@, setting_views(off@)) =~= seq![token@]);
        while i < n
            invariant
                i <= n,
                n == all@.len(),
                n == enabled@.len(),
                views == setting_views(all@),
                views == quieted_settings(),
                setting_views(off@) == chosen(views, enabled@, i as int),
                content@ == marker_text(token@, setting_views(off@)),
            decreases n - i,
        {
            let ghost before = setting_views(off@);
            let ghost text = content@;
            if enabled[i] {
                let setting = &all[i];
                content.push('\n');
                content.append(setting.0.as_str());
                content.push(' ');
                content.append(setting.1.as_str());
                off.push((setting.0.clone(), setting.1.clone()));
                proof {
                    let after = before.push(views[i as int]);
                    assert(setting_views(off@) =~= after);
                    let lines = marker_lines(token@, after);
                    assert(lines.drop_last() =~= marker_lines(token@, before));
                    assert(lines.last() == setting_line(views[i as int]));
                    assert(content@ =~= text + seq!['\n'] + lines.last());
                }
            }
            i = i + 1;
        }
        if off.len() == 0 {
            assert(setting_views(off@).len() == off@.len());
            Quieting { guard: AnimationGuard { restore: false }, off, marker: None }
        } else {
            assert(setting_views(off@).len() == off@.len());
            Quieting { guard: AnimationGuard { restore: true }, off, marker: Some(content) }
        }
    }
}

/// The settings that the first `n` lines name: those with a space between schema and key.
pub open spec fn named_settings(lines: Seq<Seq<char>>, n: int) -> Seq<SettingView>
    decreases n,
{
    if n <= 0 {
        Seq::empty()
    } else {
        match parts_at_first(lines[n - 1], ' ') {
            Some(s) => named_settings(lines, n - 1).push(s),
            None => named_settings(lines, n - 1),
        }
    }
}

/// The settings that a marker file says were turned off.
pub open spec fn settings_to_restore(marker: Seq<char>) -> Seq<SettingView> {
    named_settings(line_parts(marker), line_parts(marker).len() as int)
}

/// The settings to turn on again, from the marker file.
pub fn force_restore(marker: &str) -> (r: Vec<Setting>)
    ensures
        setting_views(r@) == settings_to_restore(marker@),
{
    let all = lines(marker);
    let ghost views = texts(all@);
    assert(views.len() == all@.len());
    let n: usize = all.len();
    let mut r: Vec<Setting> = Vec::new();
    assert(setting_views(r@) =~= Seq::<SettingView>::empty());
    let mut i: usize = 0;
    while i < n
        invariant
            i <= n,
            n == all@.len(),
            views == texts(all@),
            setting_views(r@) == named_settings(views, i as int),
        decreases n - i,
    {
        let ghost before = setting_views(r@);
        if let Some(s) = split_once(all[i].as_str(), ' ') {
            let ghost view = (s.0@, s.1@);
            r.push(s);
            assert(setting_views(r@) =~= before.push(view));
        }
        i = i + 1;
    }
    r
}

/// The shell commands that turn the settings that the lines name on again.
pub open spec fn restore_commands(lines: Seq<Seq<char>>, n: int) -> Seq<char>
    decreases n,
{
    if n <= 1 {
        Seq::empty()
    } else {
        match parts_at_first(lines[n - 1], ' ') {
            Some(s) => restore_commands(lines, n - 1) + "gsettings set "@ + s.0 + seq![' '] + s.1
                + " true; "@,
            None => restore_commands(lines, n - 1),
        }
    }
}

/// The shell script that restores the settings in the background, a moment later and only if
/// the marker file is still the same one.
pub open spec fn restore_script(lines: Seq<Seq<char>>, path: Seq<char>) -> Seq<char> {
    "sleep 0.25; if [ \"x$(head -n1 '"@ + path + "' 2>/dev/null)\" = \"x"@ + lines[0]
        + "\" ]; then "@ + restore_commands(lines, lines.len() as int) + "rm -f '"@ + path
        + "'; fi"@
}

/// The script that restores the settings in the background, if the marker file is not empty;
/// `path` is the marker file's.
pub fn restore_detached(marker: &str, path: &str) -> (r: Option<String>)
    ensures
        match r {
            Some(script) => line_parts(marker@).len() > 0 && script@ == restore_script(
                line_parts(marker@),
                path@,
            ),
            None => line_parts(marker@).len() == 0,
        },
{
    let all = lines(marker);
    let ghost views = texts(all@);
    assert(views.len() == all@.len());
    let n: usize = all.len();
    if n == 0 {
        return None;
    }
    let mut sets = String::new();
    let mut i: usize = 1;
    while i < n
        invariant
            1 <= i <= n,
            n == all@.len(),
            views == texts(all@),
            sets@ == restore_commands(views, i as int),
        decreases n - i,
    {
        if let Some(s) = split_once(all[i].as_str(), ' ') {
            let ghost before = sets@;
            sets.append("gsettings set ");
            sets.append(s.0.as_str());
            sets.push(' ');
            sets.append(s.1.as_str());
            sets.append(" true; ");
            assert(sets@ =~= before + "gsettings set "@ + s.0@ + seq![' '] + s.1@ + " true; "@);
        }
        i = i + 1;
    }
    let mut script = "sleep 0.25; if [ \"x$(head -n1 '".to_owned();
    script.append(path);
    script.append("' 2>/dev/null)\" = \"x");
    script.append(all[0].as_str());
    script.append("\" ]; then ");
    script.append(sets.as_str());
    script.append("rm -f '");
    script.append(path);
    script.append("'; fi");
    Some(script)
}

/// A name that a line can hold.
pub open spec fn fits_line(s: Seq<char>) -> bool {
    !s.contains('\n') && !s.contains('\r')
}

/// A setting that can be named in a line: its schema has no space, so that the key begins after
/// the first one.
pub open spec fn nameable(s: SettingView) -> bool {
    fits_line(s.0) && fits_line(s.1) && !s.0.contains(' ')
}

/// The line that names a setting holds no line break and is read as this setting.
proof fn lemma_setting_line(s: SettingView)
    requires
        nameable(s),
    ensures
        fits_line(setting_line(s)),
        parts_at_first(setting_line(s), ' ') == Some(s),
{
    let line = setting_line(s);
    assert forall|c: char| (c == '\n' || c == '\r') implies !line.contains(c) by {
        if line.contains(c) {
            let k = choose|k: int| 0 <= k < line.len() && line[k] == c;
            if k < s.0.len() {
                assert(s.0[k] == c);
            } else if k > s.0.len() {
                assert(s.1[k - s.0.len() - 1] == c);
            }
        }
    }
    let n = s.0.len() as int;
    assert(line[n] == ' ');
    line.index_of_first_ensures(' ');
    let i = line.index_of_first(' ').unwrap();
    if i < n {
        assert(s.0[i] == ' ');
    }
    assert(i == n);
    assert(line.take(n) =~= s.0);
    assert(line.skip(n + 1) =~= s.1);
}

/// From the marker file exactly the settings are restored that were turned off, whatever they
/// are, as long as they and the token can stand in a line.
pub proof fn law_marker_restores_what_was_turned_off(token: Seq<char>, off: Seq<SettingView>)
    requires
        off.len() > 0,
        fits_line(token),
        !token.contains(' '),
        forall|i: int| 0 <= i < off.len() ==> nameable(#[trigger] off[i]),
    ensures
        settings_to_restore(marker_text(token, off)) == off,
{
    let lines = marker_lines(token, off);
    let text = marker_text(token, off);
    assert forall|i: int| 0 <= i < lines.len() implies fits_line(#[trigger] lines[i]) by {
        if i > 0 {
            lemma_setting_line(off[i - 1]);
        }
    }
    assert forall|i: int| 0 <= i < lines.len() implies !(#[trigger] lines[i]).contains('\n') by {
        assert(fits_line(lines[i]));
    }
    law_split_of_join(lines, '\n');
    assert(split_parts(text, '\n') == lines);
    assert(lines.last() == setting_line(off.last()));
    assert(lines.last().len() > 0);
    assert forall|i: int| 0 <= i < lines.len() implies without_cr(#[trigger] lines[i])
        == lines[i] by {
        assert(fits_line(lines[i]));
        if lines[i].len() > 0 && lines[i].last() == '\r' {
            assert(lines[i][lines[i].len() - 1] == '\r');
        }
    }
    assert(line_parts(text) =~= lines);
    lemma_named_settings(token, off, lines.len() as int);
    assert(off.take(off.len() as int) =~= off);
}

/// The lines of the marker file name the settings in order.
proof fn lemma_named_settings(token: Seq<char>, off: Seq<SettingView>, n: int)
    requires
        1 <= n <= off.len() + 1,
        !token.contains(' '),
        forall|i: int| 0 <= i < off.len() ==> nameable(#[trigger] off[i]),
    ensures
        named_settings(marker_lines(token, off), n) == off.take(n - 1),
    decreases n,
{
    let lines = marker_lines(token, off);
    if n == 1 {
        token.index_of_first_ensures(' ');
        assert(parts_at_first(lines[0], ' ') is None);
        assert(named_settings(lines, 0) == Seq::<SettingView>::empty());
        assert(off.take(0) =~= Seq::<SettingView>::empty());
    } else {
        lemma_named_settings(token, off, n - 1);
        lemma_setting_line(off[n - 2]);
        assert(off.take(n - 1) =~= off.take(n - 2).push(off[n - 2]));
    }
}

/// A token can stand in the first line, and names no setting.
pub proof fn law_token_names_no_setting(pid: u32, nanos: u128)
    ensures
        fits_line(token_text(pid, nanos)),
        !token_text(pid, nanos).contains(' '),
{
    let t = token_text(pid, nanos);
    let (a, b) = (decimal(pid as nat), decimal(nanos as nat));
    reveal_strlit("tok-");
    lemma_decimal_digits(pid as nat);
    lemma_decimal_digits(nanos as nat);
    assert forall|k: int| 0 <= k < t.len() implies #[trigger] t[k] != '\n' && t[k] != '\r' && t[k]
        != ' ' by {
        if k < 4 {
            assert(t[k] == "tok-"@[k]);
        } else if k < 4 + a.len() {
            assert(t[k] == a[k - 4]);
        } else if k > 4 + a.len() {
            assert(t[k] == b[k - 5 - a.len()]);
        }
    }
}

/// Each of the settings that are turned off can be named in a line.
pub proof fn law_quieted_settings_are_nameable(i: int)
    requires
        0 <= i < quieted_settings().len(),
    ensures
        nameable(quieted_settings()[i]),
{
    reveal_strlit("org.gnome.desktop.interface");
    reveal_strlit("enable-animations");
    reveal_strlit("org.gnome.desktop.sound");
    reveal_strlit("event-sounds");
}

/// Every chosen setting is one of those there are.
proof fn lemma_chosen(all: Seq<SettingView>, flags: Seq<bool>, n: int)
    requires
        0 <= n <= all.len(),
        forall|i: int| 0 <= i < all.len() ==> nameable(#[trigger] all[i]),
    ensures
        forall|i: int|
            0 <= i < chosen(all, flags, n).len() ==> nameable(#[trigger] chosen(all, flags, n)[i]),
    decreases n,
{
    if n > 0 {
        lemma_chosen(all, flags, n - 1);
        let before = chosen(all, flags, n - 1);
        let after = chosen(all, flags, n);
        assert forall|i: int| 0 <= i < after.len() implies nameable(#[trigger] after[i]) by {
            if i < before.len() {
                assert(after[i] == before[i]);
            } else {
                assert(after[i] == all[n - 1]);
            }
        }
    }
}

/// Whichever of the settings were on, the marker file that is written when they are turned off
/// restores exactly these.
pub proof fn law_restore_reverts_disable(enabled: Seq<bool>, pid: u32, nanos: u128)
    requires
        enabled.len() == quieted_settings().len(),
        chosen(quieted_settings(), enabled, enabled.len() as int).len() > 0,
    ensures
        ({
            let off = chosen(quieted_settings(), enabled, enabled.len() as int);
            settings_to_restore(marker_text(token_text(pid, nanos), off)) == off
        }),
{
    assert forall|i: int| 0 <= i < quieted_settings().len() implies nameable(
        #[trigger] quieted_settings()[i],
    ) by {
        law_quieted_settings_are_nameable(i);
    }
    lemma_chosen(quieted_settings(), enabled, enabled.len() as int);
    law_token_names_no_setting(pid, nanos);
    law_marker_restores_what_was_turned_off(
        token_text(pid, nanos),
        chosen(quieted_settings(), enabled, enabled.len() as int),
    );
}

/// Of the two settings, the animations and the event sounds, exactly those are turned off that
/// are on.
pub proof fn law_settings_that_are_on_are_turned_off(enabled: Seq<bool>)
    requires
        enabled.len() == 2,
    ensures
        ({
            let animations = ("org.gnome.desktop.interface"@, "enable-animations"@);
            let sounds = ("org.gnome.desktop.sound"@, "event-sounds"@);
            let off = chosen(quieted_settings(), enabled, 2);
            &&& quieted_settings() == seq![animations, sounds]
            &&& enabled[0] && enabled[1] ==> off == seq![animations, sounds]
            &&& enabled[0] && !enabled[1] ==> off == seq![animations]
            &&& !enabled[0] && enabled[1] ==> off == seq![sounds]
            &&& !enabled[0] && !enabled[1] ==> off.len() == 0
        }),
{
    reveal_with_fuel(chosen, 3);
    let animations = ("org.gnome.desktop.interface"@, "enable-animations"@);
    let sounds = ("org.gnome.desktop.sound"@, "event-sounds"@);
    let off = chosen(quieted_settings(), enabled, 2);
    if enabled[0] && enabled[1] {
        assert(off =~= seq![animations, sounds]);
    } else if enabled[0] {
        assert(off =~= seq![animations]);
    } else if enabled[1] {
        assert(off =~= seq![sounds]);
    }
}

/// The marker file holds the token, and after it one line for each setting that was turned off:
/// its schema, a space and its key.
pub proof fn law_marker_has_a_line_per_setting(
    token: Seq<char>,
    off: Seq<SettingView>,
    s: SettingView,
)
    ensures
        marker_text(token, Seq::empty()) == token,
        marker_text(token, off.push(s)) == marker_text(token, off) + seq!['\n'] + s.0 + seq![' ']
            + s.1,
{
    let none = marker_lines(token, Seq::empty());
    assert(none =~= seq![token]);
    let lines = marker_lines(token, off.push(s));
    assert(lines.drop_last() =~= marker_lines(token, off));
    assert(lines.last() == setting_line(s));
    assert(marker_text(token, off.push(s)) =~= marker_text(token, off) + seq!['\n'] + s.0 + seq![
        ' ',
    ] + s.1);
}

/// A line with a space names a setting: the schema is what stands before its first space, the
/// key is what stands after it. A line without a space names none.
pub proof fn law_lines_name_settings(
    lines: Seq<Seq<char>>,
    n: int,
    schema: Seq<char>,
    key: Seq<char>,
)
    requires
        0 < n <= lines.len(),
        !schema.contains(' '),
    ensures
        named_settings(lines, 0).len() == 0,
        lines[n - 1] == schema + seq![' '] + key ==> named_settings(lines, n) == named_settings(
            lines,
            n - 1,
        ).push((schema, key)),
        lines[n - 1] == schema ==> named_settings(lines, n) == named_settings(lines, n - 1),
{
    law_first_separator_divides(schema, key, ' ');
}

/// The first line, the token, gives no command; each later line that names a setting gives the
/// one that turns just that setting on.
pub proof fn law_commands_turn_settings_on(
    lines: Seq<Seq<char>>,
    n: int,
    schema: Seq<char>,
    key: Seq<char>,
)
    requires
        1 < n <= lines.len(),
        !schema.contains(' '),
    ensures
        restore_commands(lines, 0).len() == 0,
        restore_commands(lines, 1).len() == 0,
        lines[n - 1] == schema + seq![' '] + key ==> restore_commands(lines, n)
            == restore_commands(lines, n - 1) + "gsettings set "@ + schema + seq![' '] + key
            + " true; "@,
        lines[n - 1] == schema ==> restore_commands(lines, n) == restore_commands(lines, n - 1),
{
    law_first_separator_divides(schema, key, ' ');
}

/// The script tests the first line of the marker file against the token, and only where they are
/// the same runs the commands and removes the file.
pub proof fn law_script_tests_the_token_first(
    token: Seq<char>,
    rest: Seq<Seq<char>>,
    path: Seq<char>,
)
    ensures
        ({
            let lines = seq![token] + rest;
            let script = restore_script(lines, path);
            let test = "sleep 0.25; if [ \"x$(head -n1 '"@ + path + "' 2>/dev/null)\" = \"x"@ + token
                + "\" ]; then "@;
            let commands = restore_commands(lines, 1 + rest.len() as int);
            let remove = "rm -f '"@ + path + "'; fi"@;
            &&& script.len() == test.len() + commands.len() + remove.len()
            &&& script.take(test.len() as int) == test
            &&& script.subrange(test.len() as int, (test.len() + commands.len()) as int) == commands
            &&& script.skip((test.len() + commands.len()) as int) == remove
        }),
{
    let lines = seq![token] + rest;
    let script = restore_script(lines, path);
    let test = "sleep 0.25; if [ \"x$(head -n1 '"@ + path + "' 2>/dev/null)\" = \"x"@ + token
        + "\" ]; then "@;
    let commands = restore_commands(lines, 1 + rest.len() as int);
    let remove = "rm -f '"@ + path + "'; fi"@;
    assert(lines[0] == token);
    assert(script =~= test + commands + remove);
    assert(script.take(test.len() as int) =~= test);
    assert(script.subrange(test.len() as int, (test.len() + commands.len()) as int) =~= commands);
    assert(script.skip((test.len() + commands.len()) as int) =~= remove);
}

/// Tokens of different processes or moments differ.
pub proof fn law_tokens_differ(pid: u32, nanos: u128, pid2: u32, nanos2: u128)
    requires
        token_text(pid, nanos) == token_text(pid2, nanos2),
    ensures
        pid == pid2,
        nanos == nanos2,
{
    lemma_token_fields(pid, nanos);
    lemma_token_fields(pid2, nanos2);
    law_decimal_reads_as_the_number(pid as nat);
    law_decimal_reads_as_the_number(nanos as nat);
    law_decimal_reads_as_the_number(pid2 as nat);
    law_decimal_reads_as_the_number(nanos2 as nat);
    let fields = split_parts(token_text(pid, nanos), '-');
    assert(fields[1] == decimal(pid as nat));
    assert(fields[1] == decimal(pid2 as nat));
    assert(fields[2] == decimal(nanos as nat));
    assert(fields[2] == decimal(nanos2 as nat));
}

/// The fields of a token: a fixed word, the process and the moment.
proof fn lemma_token_fields(pid: u32, nanos: u128)
    ensures
        split_parts(token_text(pid, nanos), '-') == seq![
            seq!['t', 'o', 'k'],
            decimal(pid as nat),
            decimal(nanos as nat),
        ],
{
    reveal_strlit("tok-");
    let dash = seq!['-'];
    let first = seq!['t', 'o', 'k'];
    let (a, b) = (decimal(pid as nat), decimal(nanos as nat));
    let parts = seq![first, a, b];
    lemma_decimal_digits(pid as nat);
    lemma_decimal_digits(nanos as nat);
    assert(!first.contains('-'));
    assert(!a.contains('-')) by {
        if a.contains('-') {
            let k = choose|k: int| 0 <= k < a.len() && a[k] == '-';
            assert('0' <= a[k]);
        }
    }
    assert(!b.contains('-')) by {
        if b.contains('-') {
            let k = choose|k: int| 0 <= k < b.len() && b[k] == '-';
            assert('0' <= b[k]);
        }
    }
    assert forall|i: int| 0 <= i < parts.len() implies !(#[trigger] parts[i]).contains('-') by {}
    law_split_of_join(parts, '-');
    assert(parts.drop_last() =~= seq![first, a]);
    assert(seq![first, a].drop_last() =~= seq![first]);
    reveal_with_fuel(joined, 3);
    assert("tok-"@ =~= first + dash);
    assert(token_text(pid, nanos) =~= joined(parts, dash));
}

} // verus!
