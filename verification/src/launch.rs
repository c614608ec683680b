use vstd::prelude::*;

use crate::apps::AppInfo;
use crate::command_line::{desktop_exec_split, exec_split_spec};
use crate::text::{
    chars_equal, chars_of, contains, contains_spec, replace_all, replace_spec, string_of,
    push_string, string_views, trim, trim_spec,
};

verus! {

// ------------------------------------------------------------------
// Field codes
// ------------------------------------------------------------------

/// Whether `token` is one of the field codes that stand for files, URLs or deprecated values
/// and expand to nothing.
pub open spec fn dropped_code(token: Seq<char>) -> bool {
    ||| token == "%f"@
    ||| token == "%F"@
    ||| token == "%u"@
    ||| token == "%U"@
    ||| token == "%v"@
    ||| token == "%m"@
}

/// Whether `token` holds, inside other text, a field code that cannot be expanded there.
pub open spec fn embeds_dropped_code(token: Seq<char>) -> bool {
    ||| contains_spec(token, "%f"@)
    ||| contains_spec(token, "%F"@)
    ||| contains_spec(token, "%u"@)
    ||| contains_spec(token, "%U"@)
    ||| contains_spec(token, "%i"@)
    ||| contains_spec(token, "%v"@)
    ||| contains_spec(token, "%m"@)
}

/// The arguments that one token of an `Exec` line stands for: none for an empty token or a
/// file or URL code; `--icon ICON` for `%i` where the icon is set; the name for `%c`; the
/// desktop file for `%k`; none for a token with an embedded code that cannot be expanded; else
/// the token with `%c` and then `%k` replaced.
pub open spec fn expand_token(app: AppInfo, token: Seq<char>) -> Seq<Seq<char>> {
    if token.len() == 0 {
        Seq::empty()
    } else if dropped_code(token) {
        Seq::empty()
    } else if token == "%i"@ {
        if app.icon@.len() > 0 && app.icon@ != "application-x-executable"@ {
            seq!["--icon"@, app.icon@]
        } else {
            Seq::empty()
        }
    } else if token == "%c"@ {
        seq![app.name@]
    } else if token == "%k"@ {
        seq![app.desktop_file@]
    } else if embeds_dropped_code(token) {
        Seq::empty()
    } else {
        seq![
            replace_spec(replace_spec(token, "%c"@, app.name@), "%k"@, app.desktop_file@),
        ]
    }
}

/// The arguments that `tokens` stand for, in order.
pub open spec fn expand_tokens(app: AppInfo, tokens: Seq<Seq<char>>) -> Seq<Seq<char>>
    decreases tokens.len(),
{
    if tokens.len() == 0 {
        Seq::empty()
    } else {
        expand_tokens(app, tokens.drop_last()) + expand_token(app, tokens.last())
    }
}

/// The program and arguments that the `Exec` line of `app` runs; `None` where the line does not
/// split or expands to nothing.
pub open spec fn exec_arguments_spec(app: AppInfo) -> Option<Seq<Seq<char>>> {
    match exec_split_spec(app.command@) {
        Some(tokens) => {
            let r = expand_tokens(app, tokens);
            if r.len() == 0 {
                None
            } else {
                Some(r)
            }
        },
        None => None,
    }
}

fn is(token: &[char], lit: &str) -> (r: bool)
    ensures
        r == (token@ == lit@),
{
    let l = chars_of(lit);
    chars_equal(token, l.as_slice())
}

fn has(token: &[char], lit: &str) -> (r: bool)
    ensures
        r == contains_spec(token@, lit@),
{
    let l = chars_of(lit);
    contains(token, l.as_slice())
}

/// The program and arguments that launching `app` runs, its field codes expanded.
pub fn build_exec_arguments(app: &AppInfo) -> (r: Option<Vec<String>>)
    ensures
        match r {
            Some(v) => exec_arguments_spec(*app) == Some(string_views(v@)),
            None => exec_arguments_spec(*app) is None,
        },
{
    let tokens = match desktop_exec_split(app.command.as_str()) {
        Some(t) => t,
        None => return None,
    };
    let ghost ts = string_views(tokens@);
    let name = chars_of(app.name.as_str());
    let file = chars_of(app.desktop_file.as_str());
    let icon = chars_of(app.icon.as_str());
    let percent_c = chars_of("%c");
    let percent_k = chars_of("%k");
    proof {
        reveal_strlit("%c");
        reveal_strlit("%k");
    }
    let mut result: Vec<String> = Vec::new();
    let mut i: usize = 0;
    assert(ts.take(0) =~= Seq::<Seq<char>>::empty());
    assert(string_views(result@) =~= Seq::<Seq<char>>::empty());
    while i < tokens.len()
        invariant
            i <= tokens@.len(),
            ts == string_views(tokens@),
            name@ == app.name@,
            file@ == app.desktop_file@,
            icon@ == app.icon@,
            percent_c@ == "%c"@,
            percent_k@ == "%k"@,
            percent_c@.len() == 2,
            percent_k@.len() == 2,
            string_views(result@) == expand_tokens(*app, ts.take(i as int)),
        decreases tokens@.len() - i,
    {
        assert(ts.take(i + 1).drop_last() =~= ts.take(i as int));
        let token = chars_of(tokens[i].as_str());
        assert(ts.take(i + 1).last() == token@);
        let ghost before = string_views(result@);
        let ghost expanded = expand_token(*app, token@);
        if token.len() == 0 {
            assert(before + expanded =~= before);
        } else if is(token.as_slice(), "%f") || is(token.as_slice(), "%F") || is(
            token.as_slice(),
            "%u",
        ) || is(token.as_slice(), "%U") || is(token.as_slice(), "%v") || is(
            token.as_slice(),
            "%m",
        ) {
            assert(before + expanded =~= before);
        } else if is(token.as_slice(), "%i") {
            let is_default = is(icon.as_slice(), "application-x-executable");
            if icon.len() > 0 && !is_default {
                push_string(&mut result, String::from_str("--icon"));
                push_string(&mut result, app.icon.clone());
                assert(string_views(result@) =~= before + expanded);
            } else {
                assert(before + expanded =~= before);
            }
        } else if is(token.as_slice(), "%c") {
            push_string(&mut result, app.name.clone());
            assert(string_views(result@) =~= before + expanded);
        } else if is(token.as_slice(), "%k") {
            push_string(&mut result, app.desktop_file.clone());
            assert(string_views(result@) =~= before + expanded);
        } else if has(token.as_slice(), "%f") || has(token.as_slice(), "%F") || has(
            token.as_slice(),
            "%u",
        ) || has(token.as_slice(), "%U") || has(token.as_slice(), "%i") || has(
            token.as_slice(),
            "%v",
        ) || has(token.as_slice(), "%m") {
            assert(before + expanded =~= before);
        } else {
            let first = replace_all(token.as_slice(), percent_c.as_slice(), name.as_slice());
            let second = replace_all(first.as_slice(), percent_k.as_slice(), file.as_slice());
            push_string(&mut result, string_of(second.as_slice()));
            assert(string_views(result@) =~= before + expanded);
        }
        i = i + 1;
    }
    assert(ts.take(tokens@.len() as int) =~= ts);
    if result.len() == 0 {
        None
    } else {
        Some(result)
    }
}


// ------------------------------------------------------------------
// Launching
// ------------------------------------------------------------------

/// A program to spawn and its arguments.
pub struct CommandLine {
    pub program: String,
    pub args: Vec<String>,
}

/// What launching an application comes to.
pub enum LaunchPlan {
    /// The entry is D-Bus activatable and has no `Exec` line; D-Bus activation is not done.
    DbusOnly,
    /// The `Exec` line does not split, or expands to nothing.
    InvalidExec,
    /// The application needs a terminal and none was found.
    NoTerminal,
    /// Spawn these commands in order until one starts.
    Run(Vec<CommandLine>),
}

/// A command line as values.
pub open spec fn command_view(c: CommandLine) -> (Seq<char>, Seq<Seq<char>>) {
    (c.program@, string_views(c.args@))
}

/// The commands of a plan as values.
pub open spec fn commands_view(v: Seq<CommandLine>) -> Seq<(Seq<char>, Seq<Seq<char>>)> {
    v.map_values(|c: CommandLine| command_view(c))
}

/// What launching `app` comes to, with `terminal` the terminal emulator found, if any: an
/// application that needs a terminal runs as `TERMINAL -e PROGRAM ARGS...`, and then, should that
/// not start, directly as `PROGRAM ARGS...`; any other runs directly.
pub open spec fn launch_plan_spec(
    app: AppInfo,
    terminal: Option<Seq<char>>,
    plan: LaunchPlan,
) -> bool {
    if app.dbus_activatable && trim_spec(app.command@).len() == 0 {
        plan is DbusOnly
    } else {
        match exec_arguments_spec(app) {
            None => plan is InvalidExec,
            Some(parts) => {
                let direct = (parts[0], parts.skip(1));
                if app.terminal {
                    match terminal {
                        Some(t) => plan matches LaunchPlan::Run(cs) && commands_view(cs@) == seq![
                            (t, seq!["-e"@, parts[0]] + parts.skip(1)),
                            direct,
                        ],
                        None => plan is NoTerminal,
                    }
                } else {
                    plan matches LaunchPlan::Run(cs) && commands_view(cs@) == seq![direct]
                }
            },
        }
    }
}

fn rest_of(parts: &Vec<String>, from: usize) -> (r: Vec<String>)
    requires
        from <= parts@.len(),
    ensures
        string_views(r@) == string_views(parts@).skip(from as int),
{
    let mut out: Vec<String> = Vec::new();
    let mut i = from;
    while i < parts.len()
        invariant
            from <= i <= parts@.len(),
            string_views(out@) == string_views(parts@).subrange(from as int, i as int),
        decreases parts@.len() - i,
    {
        push_string(&mut out, parts[i].clone());
        i = i + 1;
        assert(string_views(out@) =~= string_views(parts@).subrange(from as int, i as int));
    }
    assert(string_views(parts@).subrange(from as int, parts@.len() as int) =~= string_views(
        parts@,
    ).skip(from as int));
    out
}

/// Decides how to launch `app`, given the terminal emulator found for it (looked for only where
/// the application needs one).
pub fn launch_plan(app: &AppInfo, terminal: Option<String>) -> (r: LaunchPlan)
    ensures
        launch_plan_spec(
            *app,
            match terminal {
                Some(t) => Some(t@),
                None => None,
            },
            r,
        ),
{
    if app.dbus_activatable {
        let c = chars_of(app.command.as_str());
        let t = trim(c.as_slice());
        if t.len() == 0 {
            return LaunchPlan::DbusOnly;
        }
    }
    let parts = match build_exec_arguments(app) {
        Some(p) => p,
        None => return LaunchPlan::InvalidExec,
    };
    let ghost ps = string_views(parts@);
    let program = parts[0].clone();
    let args = rest_of(&parts, 1);
    if app.terminal {
        match terminal {
            Some(t) => {
                let mut wrapped: Vec<String> = Vec::new();
                push_string(&mut wrapped, String::from_str("-e"));
                push_string(&mut wrapped, program.clone());
                let mut k: usize = 0;
                let ghost start = string_views(wrapped@);
                while k < args.len()
                    invariant
                        k <= args@.len(),
                        string_views(wrapped@) == start + string_views(args@).take(k as int),
                    decreases args@.len() - k,
                {
                    push_string(&mut wrapped, args[k].clone());
                    k = k + 1;
                    assert(string_views(wrapped@) =~= start + string_views(args@).take(k as int));
                }
                assert(string_views(args@).take(k as int) =~= string_views(args@));
                assert(start =~= seq!["-e"@, ps[0]]);
                let first = CommandLine { program: t, args: wrapped };
                let second = CommandLine { program, args };
                let mut cs: Vec<CommandLine> = Vec::new();
                cs.push(first);
                cs.push(second);
                assert(commands_view(cs@) =~= seq![
                    command_view(cs@[0]),
                    command_view(cs@[1]),
                ]);
                LaunchPlan::Run(cs)
            },
            None => LaunchPlan::NoTerminal,
        }
    } else {
        let mut cs: Vec<CommandLine> = Vec::new();
        cs.push(CommandLine { program, args });
        assert(commands_view(cs@) =~= seq![command_view(cs@[0])]);
        LaunchPlan::Run(cs)
    }
}

/// The terminal emulators looked for, in order of preference.
pub open spec fn terminal_candidates_spec() -> Seq<Seq<char>> {
    seq![
        "xdg-terminal-exec"@,
        "kitty"@,
        "foot"@,
        "wezterm"@,
        "alacritty"@,
        "ghostty"@,
        "konsole"@,
        "gnome-terminal"@,
        "xfce4-terminal"@,
        "xterm"@,
    ]
}

/// The terminal emulators looked for, in order of preference.
pub fn terminal_candidates() -> (r: Vec<String>)
    ensures
        string_views(r@) == terminal_candidates_spec(),
{
    let mut v: Vec<String> = Vec::new();
    push_string(&mut v, String::from_str("xdg-terminal-exec"));
    push_string(&mut v, String::from_str("kitty"));
    push_string(&mut v, String::from_str("foot"));
    push_string(&mut v, String::from_str("wezterm"));
    push_string(&mut v, String::from_str("alacritty"));
    push_string(&mut v, String::from_str("ghostty"));
    push_string(&mut v, String::from_str("konsole"));
    push_string(&mut v, String::from_str("gnome-terminal"));
    push_string(&mut v, String::from_str("xfce4-terminal"));
    push_string(&mut v, String::from_str("xterm"));
    assert(string_views(v@) =~= terminal_candidates_spec());
    v
}

/// The terminal emulators looked for, given the configured one: that one first (trimmed), where
/// it is set and not blank, then the built-in list.
pub open spec fn terminal_search_order_spec(preferred: Option<Seq<char>>) -> Seq<Seq<char>> {
    match preferred {
        Some(t) => if trim_spec(t).len() > 0 {
            seq![trim_spec(t)] + terminal_candidates_spec()
        } else {
            terminal_candidates_spec()
        },
        None => terminal_candidates_spec(),
    }
}

/// The terminal emulators looked for, in order, given the configured terminal `preferred`.
pub fn terminal_search_order(preferred: Option<String>) -> (r: Vec<String>)
    ensures
        string_views(r@) == terminal_search_order_spec(
            match preferred {
                Some(t) => Some(t@),
                None => None,
            },
        ),
{
    let builtin = terminal_candidates();
    let mut out: Vec<String> = Vec::new();
    assert(string_views(out@) =~= Seq::<Seq<char>>::empty());
    match &preferred {
        Some(t) => {
            let c = chars_of(t.as_str());
            let name = trim(c.as_slice());
            if name.len() > 0 {
                push_string(&mut out, string_of(name.as_slice()));
            }
        },
        None => {},
    }
    let ghost head = string_views(out@);
    let mut i: usize = 0;
    while i < builtin.len()
        invariant
            i <= builtin@.len(),
            string_views(out@) == head + string_views(builtin@).take(i as int),
        decreases builtin@.len() - i,
    {
        push_string(&mut out, builtin[i].clone());
        i = i + 1;
        assert(string_views(out@) =~= head + string_views(builtin@).take(i as int));
    }
    assert(string_views(builtin@).take(i as int) =~= string_views(builtin@));
    proof {
        match preferred {
            Some(t) => if trim_spec(t@).len() > 0 {
                assert(head =~= seq![trim_spec(t@)]);
            } else {
                assert(head =~= Seq::<Seq<char>>::empty());
            },
            None => {
                assert(head =~= Seq::<Seq<char>>::empty());
            },
        }
    }
    out
}

} // verus!
