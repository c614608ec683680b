use raix::apps::{
    evaluate_entry, join_search_text, search_text_of, try_exec_target, AppCatalog, AppInfo,
    EntryOutcome,
};
use raix::command_line::desktop_exec_split;
use raix::config::Config;
use raix::desktop_entry::{parse_desktop_entry, split_key_value, unescape_desktop_value, DesktopEntry};
use raix::desktop_keys::{
    desktop_environment_allows, desktop_names, localized_value, parse_bool, select_locale,
    split_semicolon_list,
};
use raix::fuzzy::{fuzzy_score, is_word_boundary};
use raix::launch::{build_exec_arguments, launch_plan, terminal_candidates, terminal_search_order, LaunchPlan};
use raix::paths::{
    application_directories, command_candidates, config_path, distinct_paths, is_desktop_file,
};
use raix::search::{rank_apps, search_query, search_results, shown_results};
use raix::style::{decimal, stylesheet};
use raix::ui::{key_action, next_selection, row_app, row_content, Key, KeyAction, SelectionMove};

fn s(v: &str) -> String {
    v.to_string()
}

fn strings(v: &[&str]) -> Vec<String> {
    v.iter().map(|x| x.to_string()).collect()
}

fn app(name: &str, command: &str) -> AppInfo {
    AppInfo {
        name: s(name),
        command: s(command),
        icon: s("app-icon"),
        comment: s(""),
        desktop_file: s("/usr/share/applications/app.desktop"),
        terminal: false,
        dbus_activatable: false,
        search_text: format!("{} {}", name.to_lowercase(), command.to_lowercase()),
    }
}

fn app_in(name: &str, command: &str, file: &str) -> AppInfo {
    let mut a = app(name, command);
    a.desktop_file = s(file);
    a
}

fn listed_app(name: &str, command: &str) -> AppInfo {
    app_in(name, command, &format!("/usr/share/applications/{}-{}.desktop", name, command.trim()))
}

fn entry(pairs: &[(&str, &str)]) -> DesktopEntry {
    let mut e = DesktopEntry::new();
    for (k, v) in pairs {
        e.insert(s(k), s(v));
    }
    e
}

// ---------------------------------------------------------------- fuzzy

#[test]
fn fuzzy_empty_query_scores_zero() {
    assert_eq!(fuzzy_score("", "anything"), Some(0));
    assert_eq!(fuzzy_score("", ""), Some(0));
}

#[test]
fn fuzzy_exact_match_at_start() {
    assert_eq!(fuzzy_score("fire", "firefox"), Some(10000));
}

#[test]
fn fuzzy_exact_match_counts_bytes() {
    assert_eq!(fuzzy_score("fox", "firefox"), Some(9996));
    // 'é' takes two bytes in UTF-8.
    assert_eq!(fuzzy_score("b", "éa b"), Some(9996));
}

#[test]
fn fuzzy_subsequence_scores() {
    // f at the start: 50 + 100; second f: 50.
    assert_eq!(fuzzy_score("ff", "firefox"), Some(200));
    // g at the start: 50 + 100; c after a space: 50 + 80.
    assert_eq!(fuzzy_score("gc", "google chrome"), Some(280));
    // consecutive matches after the first get 30 more: "fx" is not a substring of "f-x".
    assert_eq!(fuzzy_score("fx", "fax"), Some(50 + 100 + 50));
    assert_eq!(fuzzy_score("ax", "xa-x"), Some(50 + 50 + 80));
}

#[test]
fn fuzzy_consecutive_bonus() {
    // "ab" is a substring of neither; a and b match in a row after a boundary.
    assert_eq!(fuzzy_score("abd", "x ab_d"), Some((50 + 80) + (50 + 30) + (50 + 80)));
}

#[test]
fn fuzzy_no_match() {
    assert_eq!(fuzzy_score("xyz", "firefox"), None);
    assert_eq!(fuzzy_score("cvs", "visual studio code"), None);
    assert_eq!(fuzzy_score("a", ""), None);
}

#[test]
fn fuzzy_matches_exactly_subsequences() {
    let text = "visual studio code";
    assert!(fuzzy_score("vsc", text).is_some());
    assert!(fuzzy_score("studio", text).is_some());
    assert!(fuzzy_score("edoc", text).is_none());
}

#[test]
fn word_boundaries() {
    for c in [' ', '-', '_', '/', '.', ':', '\\'] {
        assert!(is_word_boundary(c));
    }
    for c in ['a', '1', ',', ';'] {
        assert!(!is_word_boundary(c));
    }
}

// ---------------------------------------------------------------- Exec lines

#[test]
fn exec_split_plain() {
    assert_eq!(desktop_exec_split("firefox %u"), Some(strings(&["firefox", "%u"])));
    assert_eq!(desktop_exec_split("  a \t b  "), Some(strings(&["a", "b"])));
    assert_eq!(desktop_exec_split(""), Some(vec![]));
}

#[test]
fn exec_split_quotes() {
    assert_eq!(
        desktop_exec_split("sh -c \"echo 'hi there'\""),
        Some(strings(&["sh", "-c", "echo 'hi there'"]))
    );
    assert_eq!(desktop_exec_split("'a b' c"), Some(strings(&["a b", "c"])));
    assert_eq!(desktop_exec_split("\"\""), Some(strings(&[""])));
    assert_eq!(desktop_exec_split("'a\\b'"), Some(strings(&["a\\b"])));
}

#[test]
fn exec_split_escapes() {
    assert_eq!(desktop_exec_split("a\\ b"), Some(strings(&["a b"])));
    assert_eq!(desktop_exec_split("\"a\\\"b\""), Some(strings(&["a\"b"])));
}

#[test]
fn exec_split_rejects_unbalanced() {
    assert_eq!(desktop_exec_split("\"abc"), None);
    assert_eq!(desktop_exec_split("'abc"), None);
    assert_eq!(desktop_exec_split("abc\\"), None);
}

#[test]
fn exec_arguments_drop_file_codes() {
    assert_eq!(build_exec_arguments(&app("Firefox", "firefox %u")), Some(strings(&["firefox"])));
    assert_eq!(build_exec_arguments(&app("X", "x --file=%f --y")), Some(strings(&["x", "--y"])));
    assert_eq!(build_exec_arguments(&app("X", "%F %U %v %m")), None);
    assert_eq!(build_exec_arguments(&app("X", "\"unterminated")), None);
}

#[test]
fn exec_arguments_expand_codes() {
    let mut a = app("My App", "run %i %c %k name=%c file=%k");
    assert_eq!(
        build_exec_arguments(&a),
        Some(strings(&[
            "run",
            "--icon",
            "app-icon",
            "My App",
            "/usr/share/applications/app.desktop",
            "name=My App",
            "file=/usr/share/applications/app.desktop",
        ]))
    );
    a.icon = s("application-x-executable");
    assert_eq!(build_exec_arguments(&app("N", "run %i")), Some(strings(&["run", "--icon", "app-icon"])));
    a.command = s("run %i");
    assert_eq!(build_exec_arguments(&a), Some(strings(&["run"])));
}

#[test]
fn launch_plan_direct() {
    match launch_plan(&app("Gedit", "gedit --new-window %U"), None) {
        LaunchPlan::Run(cs) => {
            assert_eq!(cs.len(), 1);
            assert_eq!(cs[0].program, "gedit");
            assert_eq!(cs[0].args, strings(&["--new-window"]));
        }
        _ => panic!("expected a command"),
    }
}

#[test]
fn launch_plan_terminal() {
    let mut a = app("Htop", "htop -d 10");
    a.terminal = true;
    match launch_plan(&a, Some(s("foot"))) {
        LaunchPlan::Run(cs) => {
            assert_eq!(cs.len(), 2);
            assert_eq!(cs[0].program, "foot");
            assert_eq!(cs[0].args, strings(&["-e", "htop", "-d", "10"]));
            assert_eq!(cs[1].program, "htop");
            assert_eq!(cs[1].args, strings(&["-d", "10"]));
        }
        _ => panic!("expected commands"),
    }
    assert!(matches!(launch_plan(&a, None), LaunchPlan::NoTerminal));
}

#[test]
fn launch_plan_failures() {
    let mut a = app("Bus", "  ");
    a.dbus_activatable = true;
    assert!(matches!(launch_plan(&a, None), LaunchPlan::DbusOnly));
    assert!(matches!(launch_plan(&app("Bad", "'x"), None), LaunchPlan::InvalidExec));
    assert!(matches!(launch_plan(&app("Empty", "%f"), None), LaunchPlan::InvalidExec));
}

#[test]
fn terminals_in_order() {
    assert_eq!(
        terminal_candidates(),
        strings(&[
            "xdg-terminal-exec",
            "kitty",
            "foot",
            "wezterm",
            "alacritty",
            "ghostty",
            "konsole",
            "gnome-terminal",
            "xfce4-terminal",
            "xterm",
        ])
    );
}

// ---------------------------------------------------------------- desktop files

#[test]
fn unescape_values() {
    assert_eq!(unescape_desktop_value("a\\sb"), "a b");
    assert_eq!(unescape_desktop_value("\\n\\t\\r\\\\"), "\n\t\r\\");
    assert_eq!(unescape_desktop_value("\\q"), "\\q");
    assert_eq!(unescape_desktop_value("end\\"), "end\\");
    assert_eq!(unescape_desktop_value("plain text"), "plain text");
}

#[test]
fn key_value_lines() {
    assert_eq!(split_key_value("Name = Foo"), Some((s("Name"), s(" Foo"))));
    assert_eq!(split_key_value("a=b=c"), Some((s("a"), s("b=c"))));
    assert_eq!(split_key_value(" =x"), None);
    assert_eq!(split_key_value("nokey"), None);
    assert_eq!(split_key_value("k="), Some((s("k"), s(""))));
}

#[test]
fn parse_desktop_file() {
    let data = "# comment\nName=Outside\n[Desktop Entry]\r\nType=Application\nName=Files\n\nName[de]=Dateien\nExec=nautilus --new-window %U\nComment=Browse\\sfiles\n  # another\n[Desktop Action new]\nName=New Window\n";
    let e = parse_desktop_entry(data).expect("an entry");
    assert_eq!(e.get("Name"), Some(&s("Files")));
    assert_eq!(e.get("Name[de]"), Some(&s("Dateien")));
    assert_eq!(e.get("Type"), Some(&s("Application")));
    assert_eq!(e.get("Exec"), Some(&s("nautilus --new-window %U")));
    assert_eq!(e.get("Comment"), Some(&s("Browse files")));
    assert_eq!(e.get("Icon"), None);
}

#[test]
fn parse_desktop_file_later_key_wins() {
    let e = parse_desktop_entry("[Desktop Entry]\nName=A\nName=B\n").unwrap();
    assert_eq!(e.get("Name"), Some(&s("B")));
}

#[test]
fn parse_desktop_file_without_keys() {
    assert!(parse_desktop_entry("").is_none());
    assert!(parse_desktop_entry("Name=x\n[Other]\nName=y").is_none());
    assert!(parse_desktop_entry("[Desktop Entry]\n# only a comment\n").is_none());
}

#[test]
fn entry_read_after_write() {
    let mut e = DesktopEntry::new();
    assert!(e.is_empty());
    e.insert(s("Exec"), s("a"));
    e.insert(s("Name"), s("b"));
    e.insert(s("Exec"), s("c"));
    assert!(!e.is_empty());
    assert_eq!(e.get("Exec"), Some(&s("c")));
    assert_eq!(e.get("Name"), Some(&s("b")));
    assert_eq!(e.get("Icon"), None);
}

#[test]
fn booleans() {
    let t = s(" TRUE ");
    let f = s("false");
    let y = s("yes");
    assert!(parse_bool(Some(&t)));
    assert!(!parse_bool(Some(&f)));
    assert!(!parse_bool(Some(&y)));
    assert!(!parse_bool(None));
}

#[test]
fn semicolon_lists() {
    assert_eq!(split_semicolon_list("GNOME; KDE;;"), strings(&["GNOME", "KDE"]));
    assert_eq!(split_semicolon_list(""), Vec::<String>::new());
    assert_eq!(split_semicolon_list(" ; "), Vec::<String>::new());
}

#[test]
fn current_desktops() {
    assert_eq!(
        desktop_names(Some(s("GNOME: ubuntu:")), Some(s(" gnome ")), true),
        strings(&["GNOME", "ubuntu", "gnome"])
    );
    assert_eq!(desktop_names(None, None, true), strings(&["Hyprland"]));
    assert_eq!(desktop_names(None, Some(s("  ")), false), Vec::<String>::new());
    assert_eq!(desktop_names(Some(s("")), None, true), strings(&["Hyprland"]));
}

#[test]
fn environment_filter() {
    let only_kde = entry(&[("OnlyShowIn", "KDE;")]);
    assert!(!desktop_environment_allows(&only_kde, &strings(&["GNOME"])));
    assert!(desktop_environment_allows(&only_kde, &strings(&["kde"])));
    assert!(!desktop_environment_allows(&only_kde, &vec![]));
    let not_gnome = entry(&[("NotShowIn", "GNOME;Unity")]);
    assert!(!desktop_environment_allows(&not_gnome, &strings(&["gnome"])));
    assert!(desktop_environment_allows(&not_gnome, &strings(&["Hyprland"])));
    let empty_only = entry(&[("OnlyShowIn", ";")]);
    assert!(desktop_environment_allows(&empty_only, &strings(&["X"])));
    assert!(desktop_environment_allows(&entry(&[]), &vec![]));
}

#[test]
fn locale_selection() {
    assert_eq!(select_locale(Some(s("C")), None, Some(s("de_DE.UTF-8"))), "de_DE.UTF-8");
    assert_eq!(select_locale(Some(s("")), Some(s("POSIX")), None), "");
    assert_eq!(select_locale(Some(s("fr_FR")), Some(s("de")), Some(s("en"))), "fr_FR");
    assert_eq!(select_locale(None, None, None), "");
}

#[test]
fn localized_values() {
    let e = entry(&[
        ("Name", "Files"),
        ("Name[de]", "Dateien"),
        ("Name[de_DE]", ""),
        ("Comment[sr@latin]", "x"),
    ]);
    assert_eq!(localized_value(&e, "Name", "de_DE.UTF-8@euro"), Some(s("Dateien")));
    assert_eq!(localized_value(&e, "Name", "de_DE"), Some(s("Dateien")));
    assert_eq!(localized_value(&e, "Name", "fr_FR"), Some(s("Files")));
    assert_eq!(localized_value(&e, "Name", ""), Some(s("Files")));
    assert_eq!(localized_value(&e, "Comment", ""), None);
    let f = entry(&[("Name", "A"), ("Name[de_DE.UTF-8@euro]", "B")]);
    assert_eq!(localized_value(&f, "Name", "de_DE.UTF-8@euro"), Some(s("B")));
}

// ---------------------------------------------------------------- entries and the catalog

#[test]
fn entry_listed() {
    let e = entry(&[
        ("Type", "Application"),
        ("Name", "Files"),
        ("Name[de]", "Dateien"),
        ("Comment", "Browse"),
        ("Exec", "Nautilus %U"),
        ("Terminal", "false"),
        ("DBusActivatable", "true"),
    ]);
    match evaluate_entry(&e, "/a/files.desktop", "de_DE", &vec![], true) {
        EntryOutcome::Listed(a) => {
            assert_eq!(a.name, "Dateien");
            assert_eq!(a.command, "Nautilus %U");
            assert_eq!(a.icon, "application-x-executable");
            assert_eq!(a.comment, "Browse");
            assert_eq!(a.desktop_file, "/a/files.desktop");
            assert!(!a.terminal);
            assert!(a.dbus_activatable);
            assert_eq!(a.search_text, "dateien browse nautilus %u");
        }
        _ => panic!("expected a listed application"),
    }
}

#[test]
fn entry_skipped() {
    let base = [("Name", "X"), ("Exec", "x")];
    let with = |extra: (&str, &str)| {
        let mut v: Vec<(&str, &str)> = base.to_vec();
        v.push(extra);
        entry(&v)
    };
    let skipped = |e: &DesktopEntry, found: bool| {
        matches!(evaluate_entry(e, "/f.desktop", "", &strings(&["GNOME"]), found), EntryOutcome::Skipped)
    };
    assert!(skipped(&with(("Type", "Link")), true));
    assert!(skipped(&with(("Hidden", "True")), true));
    assert!(skipped(&with(("NoDisplay", "true")), true));
    assert!(skipped(&with(("TryExec", "missing-tool")), false));
    assert!(!skipped(&with(("TryExec", "  ")), false));
    assert!(skipped(&with(("OnlyShowIn", "KDE")), true));
    assert!(skipped(&entry(&[("Name", "  "), ("Exec", "x")]), true));
    assert!(skipped(&entry(&[("Name", "X")]), true));
    assert!(skipped(&entry(&[("Exec", "x")]), true));
}

#[test]
fn entry_malformed_exec() {
    let e = entry(&[("Name", "X"), ("Exec", "x \"y")]);
    match evaluate_entry(&e, "/f.desktop", "", &vec![], true) {
        EntryOutcome::MalformedExec(cmd) => assert_eq!(cmd, "x \"y"),
        _ => panic!("expected a malformed Exec"),
    }
}

#[test]
fn try_exec_targets() {
    assert_eq!(try_exec_target(&entry(&[("TryExec", " /usr/bin/tool ")])), Some(s("/usr/bin/tool")));
    assert_eq!(try_exec_target(&entry(&[("TryExec", " ")])), None);
    assert_eq!(try_exec_target(&entry(&[])), None);
}

#[test]
fn catalog_sorts_and_drops_duplicates() {
    let mut c = AppCatalog::new();
    assert!(c.add(listed_app("beta", "b")));
    assert!(c.add(listed_app("Alpha", "a")));
    assert!(c.add(listed_app("alpha", "a2")));
    assert!(!c.add(listed_app("BETA", " B ")));
    assert!(c.add(listed_app("Gamma", "g")));
    let names: Vec<String> = c.into_apps().into_iter().map(|a| a.name).collect();
    assert_eq!(names, strings(&["Alpha", "alpha", "beta", "Gamma"]));
}

#[test]
fn catalog_lists_each_desktop_file_once() {
    let mut c = AppCatalog::new();
    assert!(c.add(app_in("Alpha", "alpha", "/apps/a.desktop")));
    assert!(!c.add(app_in("Beta", "beta", "/apps//a.desktop")));
    assert!(!c.add_keyed(app_in("Gamma", "gamma", "/apps/./a.desktop"), vec!['g'], vec!['g']));
    assert!(c.add(app_in("Delta", "delta", "/apps/d.desktop")));
    let names: Vec<String> = c.into_apps().into_iter().map(|a| a.name).collect();
    assert_eq!(names, strings(&["Alpha", "Delta"]));
}

#[test]
fn catalog_visits_each_file_once() {
    let mut c = AppCatalog::new();
    assert!(c.first_visit("/usr/share/applications/a.desktop"));
    assert!(c.first_visit("/usr/share/applications/b.desktop"));
    assert!(!c.first_visit("/usr/share/applications/a.desktop"));
    assert!(!c.first_visit("/usr/share//applications/a.desktop"));
}

// ---------------------------------------------------------------- search

#[test]
fn search_empty_query_lists_all() {
    let apps = vec![app("B", "b"), app("A", "a"), app("C", "c")];
    assert_eq!(search_results(&apps, ""), vec![0, 1, 2]);
    assert_eq!(search_results(&apps, "   "), vec![0, 1, 2]);
    assert_eq!(search_results(&apps, "\t\n \u{3000}"), vec![0, 1, 2]);
    assert_eq!(search_results(&Vec::new(), " "), Vec::<usize>::new());
}

#[test]
fn search_ranks_by_score_then_name() {
    let apps = vec![
        app("Terminal", "gnome-terminal"),
        app("Firefox", "firefox %u"),
        app("Files", "nautilus"),
        app("File Roller", "file-roller"),
    ];
    // "fi" is a substring: exact matches score 10000 minus the position.
    assert_eq!(search_results(&apps, " FI "), vec![3, 2, 1]);
    assert_eq!(search_results(&apps, "term"), vec![0]);
    assert_eq!(search_results(&apps, "zzz"), Vec::<usize>::new());
}

#[test]
fn search_ties_by_name_then_index() {
    let apps = vec![app("b", "x"), app("a", "x"), app("a", "x")];
    assert_eq!(search_results(&apps, "x"), vec![1, 2, 0]);
}

// ---------------------------------------------------------------- paths

#[test]
fn config_file_path() {
    assert_eq!(config_path(Some(s("/home/u"))), "/home/u/.config/raix/config.toml");
    assert_eq!(config_path(None), "./.config/raix/config.toml");
}

#[test]
fn search_directories() {
    assert_eq!(
        application_directories(None, Some(s("/home/u")), None),
        strings(&[
            "/home/u/.local/share/applications",
            "/usr/local/share/applications",
            "/usr/share/applications",
        ])
    );
    assert_eq!(
        application_directories(Some(s("/data")), Some(s("/home/u")), Some(strings(&["/opt/share", "/usr/share/"]))),
        strings(&[
            "/data/applications",
            "/opt/share/applications",
            "/usr/share/applications",
            "/usr/local/share/applications",
        ])
    );
}

#[test]
fn command_search_paths() {
    assert_eq!(command_candidates("/usr/bin/foot", Some(strings(&["/bin"]))), strings(&["/usr/bin/foot"]));
    assert_eq!(
        command_candidates("foot", Some(strings(&["/usr/bin", "/bin"]))),
        strings(&["/usr/bin/foot", "/bin/foot"])
    );
    assert_eq!(command_candidates("foot", None), Vec::<String>::new());
    assert_eq!(command_candidates("./foot", Some(strings(&["/bin"]))), strings(&["./foot"]));
    assert_eq!(command_candidates("foot/", Some(strings(&["/bin"]))), strings(&["/bin/foot/"]));
    assert_eq!(command_candidates("", Some(strings(&["/bin"]))), strings(&["/bin/"]));
}

#[test]
fn desktop_file_names() {
    assert!(is_desktop_file("/usr/share/applications/firefox.desktop"));
    assert!(!is_desktop_file("/usr/share/applications/firefox.desktop.bak"));
    assert!(!is_desktop_file("/usr/share/applications/.desktop"));
    assert!(!is_desktop_file("README"));
    assert!(is_desktop_file("/apps/firefox.desktop/"));
    assert!(is_desktop_file("/apps/firefox.desktop/."));
    assert!(is_desktop_file("x..desktop"));
    assert!(!is_desktop_file("/apps/firefox.desktop/.."));
    assert!(!is_desktop_file("/"));
    assert!(!is_desktop_file("."));
}

// ---------------------------------------------------------------- the window

#[test]
fn keys() {
    assert_eq!(key_action(Key::Escape), KeyAction::Hide);
    assert_eq!(key_action(Key::Down), KeyAction::Select(SelectionMove::By(1)));
    assert_eq!(key_action(Key::Up), KeyAction::Select(SelectionMove::By(-1)));
    assert_eq!(key_action(Key::PageDown), KeyAction::Select(SelectionMove::By(6)));
    assert_eq!(key_action(Key::PageUp), KeyAction::Select(SelectionMove::By(-6)));
    assert_eq!(key_action(Key::Home), KeyAction::Select(SelectionMove::First));
    assert_eq!(key_action(Key::End), KeyAction::Select(SelectionMove::Last));
    assert_eq!(key_action(Key::Return), KeyAction::Launch);
    assert_eq!(key_action(Key::KeypadEnter), KeyAction::Launch);
    assert_eq!(key_action(Key::Other), KeyAction::Pass);
}

#[test]
fn selection_moves() {
    assert_eq!(next_selection(0, None, SelectionMove::By(1)), None);
    assert_eq!(next_selection(5, None, SelectionMove::By(1)), Some(1));
    assert_eq!(next_selection(5, Some(4), SelectionMove::By(1)), Some(4));
    assert_eq!(next_selection(5, Some(1), SelectionMove::By(-6)), Some(0));
    assert_eq!(next_selection(5, Some(i32::MAX), SelectionMove::By(6)), Some(4));
    assert_eq!(next_selection(5, Some(i32::MIN), SelectionMove::By(-6)), Some(0));
    assert_eq!(next_selection(5, Some(2), SelectionMove::First), Some(0));
    assert_eq!(next_selection(5, Some(2), SelectionMove::Last), Some(4));
}

#[test]
fn rows_to_apps() {
    let results = vec![2, 0, 7];
    assert_eq!(row_app(0, &results, 3), Some(2));
    assert_eq!(row_app(1, &results, 3), Some(0));
    assert_eq!(row_app(2, &results, 3), None);
    assert_eq!(row_app(3, &results, 3), None);
    assert_eq!(row_app(-1, &results, 3), None);
}

#[test]
fn row_contents() {
    let mut a = app("Files", "nautilus");
    let mut c = Config::default();
    let r = row_content(&a, &c);
    assert_eq!(r.icon, Some(s("app-icon")));
    assert_eq!(r.name, "Files");
    assert_eq!(r.comment, None);
    a.comment = s("Browse");
    assert_eq!(row_content(&a, &c).comment, Some(s("Browse")));
    c.show_comments = false;
    c.show_icons = false;
    let r = row_content(&a, &c);
    assert_eq!(r.icon, None);
    assert_eq!(r.comment, None);
}

#[test]
fn default_configuration() {
    let c = Config::default();
    assert_eq!((c.width, c.height), (760, 520));
    assert_eq!(c.background, "rgba(20, 20, 28, 0.97)");
    assert_eq!(c.font, "JetBrainsMono Nerd Font");
    assert_eq!(c.search_placeholder, "Search applications...");
    assert!(c.show_icons && c.show_comments);
    assert_eq!((c.icon_size, c.row_radius, c.row_margin), (42, 12, 2));
    assert_eq!(c.search_focus_border_color, "rgba(130, 170, 255, 0.65)");
    assert_eq!(c.max_results, None);
    assert_eq!(c.terminal, None);
}

#[test]
fn result_list_capped_at_max_results() {
    let apps = vec![
        app("Terminal", "gnome-terminal"),
        app("Firefox", "firefox %u"),
        app("Files", "nautilus"),
        app("File Roller", "file-roller"),
    ];
    assert_eq!(shown_results(&apps, " FI ", Some(2)), vec![3, 2]);
    assert_eq!(shown_results(&apps, " FI ", Some(12)), vec![3, 2, 1]);
    assert_eq!(shown_results(&apps, " FI ", None), vec![3, 2, 1]);
    assert_eq!(shown_results(&apps, "", Some(3)), vec![0, 1, 2]);
    assert_eq!(shown_results(&apps, "", None), vec![0, 1, 2, 3]);
    assert_eq!(shown_results(&apps, "fi", Some(0)), Vec::<usize>::new());
}

#[test]
fn configured_terminal_tried_first() {
    let builtin = terminal_candidates();
    let mut expected = vec![s("foot")];
    expected.extend(builtin.clone());
    assert_eq!(terminal_search_order(Some(s("foot"))), expected);
    assert_eq!(terminal_search_order(Some(s("  foot "))), expected);
    assert_eq!(terminal_search_order(Some(s("   "))), builtin);
    assert_eq!(terminal_search_order(None), builtin);
}

#[test]
fn decimals() {
    assert_eq!(decimal(0), "0");
    assert_eq!(decimal(42), "42");
    assert_eq!(decimal(-5), "-5");
    assert_eq!(decimal(i32::MAX), i32::MAX.to_string());
    assert_eq!(decimal(i32::MIN), i32::MIN.to_string());
}

fn expected_stylesheet(c: &Config) -> String {
    let expected = format!(
        r#"
        * {{
            font-family:
                "{font}",
                "Noto Sans",
                sans-serif;
        }}

        window {{
            background: transparent;
        }}

        .launcher {{
            background: {background};

            border:
                {border_width}px solid
                {border_color};

            border-radius:
                {border_radius}px;

            padding: 14px;
        }}

        .search {{
            background:
                {search_background};

            color:
                {text_color};

            border:
                1px solid
                {search_border_color};

            border-radius:
                12px;

            padding:
                13px 16px;

            font-size:
                {search_font_size}px;

            min-height:
                28px;

            caret-color:
                #ffffff;
        }}

        .search:focus {{
            border-color:
                {search_focus_border_color};

            background:
                rgba(
                    255,
                    255,
                    255,
                    0.09
                );
        }}

        .search placeholder {{
            color:
                #777783;
        }}

        list {{
            background:
                transparent;
        }}

        row {{
            background:
                transparent;

            border-radius:
                {row_radius}px;

            padding:
                4px;

            margin:
                {row_margin}px 0;
        }}

        row:hover {{
            background:
                {hover_color};
        }}

        row:selected {{
            background:
                {selected_color};
        }}

        .app-name {{
            color:
                {text_color};

            font-size:
                {app_font_size}px;

            font-weight:
                600;
        }}

        .app-comment {{
            color:
                {comment_color};

            font-size:
                {comment_font_size}px;
        }}

        .icon {{
            min-width:
                {icon_size}px;

            min-height:
                {icon_size}px;
        }}

        scrollbar {{
            background:
                transparent;
        }}

        scrollbar slider {{
            background:
                rgba(
                    255,
                    255,
                    255,
                    0.15
                );

            border-radius:
                8px;
        }}
        "#,
        font = c.font,
        background = c.background,
        border_width = c.border_width,
        border_color = c.border_color,
        border_radius = c.border_radius,
        text_color = c.text_color,
        search_background = c.search_background,
        search_border_color = c.search_border_color,
        search_focus_border_color = c.search_focus_border_color,
        search_font_size = c.search_font_size,
        row_radius = c.row_radius,
        row_margin = c.row_margin,
        hover_color = c.hover_color,
        selected_color = c.selected_color,
        app_font_size = c.app_font_size,
        comment_color = c.comment_color,
        comment_font_size = c.comment_font_size,
        icon_size = c.icon_size,
    );
    expected
}

#[test]
fn stylesheet_default() {
    let c = Config::default();
    assert_eq!(stylesheet(&c), expected_stylesheet(&c));
}

#[test]
fn stylesheet_custom() {
    let mut c = Config::default();
    c.font = s("Iosevka");
    c.border_width = -3;
    c.icon_size = 1000;
    c.text_color = s("red");
    assert_eq!(stylesheet(&c), expected_stylesheet(&c));
    assert!(stylesheet(&c).contains("\"Iosevka\""));
    assert!(stylesheet(&c).contains("-3px solid"));
}

#[test]
fn search_queries() {
    assert_eq!(search_query("  FireFox "), "firefox");
    assert_eq!(search_query("\t"), "");
    assert_eq!(search_query("ÄB"), "äb");
}

#[test]
fn ranking_given_query() {
    let apps = vec![app("Files", "nautilus"), app("Firefox", "firefox")];
    assert_eq!(rank_apps(&apps, ""), vec![0, 1]);
    assert_eq!(rank_apps(&apps, "fi"), vec![0, 1]);
    // rank_apps takes the query as given: no trimming, no lower case.
    assert_eq!(rank_apps(&apps, "FI"), Vec::<usize>::new());
    assert_eq!(rank_apps(&apps, "naut"), vec![0]);
}

#[test]
fn search_texts() {
    assert_eq!(join_search_text("a", "b", "c"), "a b c");
    assert_eq!(join_search_text("", "", ""), "  ");
    assert_eq!(search_text_of("Files", "Browse Files", "Nautilus %U"), "files browse files nautilus %u");
}

#[test]
fn catalog_with_given_keys() {
    let mut c = AppCatalog::new();
    assert!(c.add_keyed(listed_app("Zed", "zed"), vec!['a'], vec!['1']));
    assert!(c.add_keyed(listed_app("Alpha", "alpha"), vec!['b'], vec!['2']));
    assert!(!c.add_keyed(listed_app("Other", "other"), vec!['c'], vec!['1']));
    assert!(c.add_keyed(listed_app("Beta", "beta"), vec!['a'], vec!['3']));
    let names: Vec<String> = c.into_apps().into_iter().map(|a| a.name).collect();
    assert_eq!(names, strings(&["Beta", "Zed", "Alpha"]));
}

#[test]
fn catalog_keeps_insertion_order_for_equal_names() {
    let mut c = AppCatalog::new();
    assert!(c.add(listed_app("Same", "first")));
    assert!(c.add(listed_app("Same", "second")));
    let cmds: Vec<String> = c.into_apps().into_iter().map(|a| a.command).collect();
    assert_eq!(cmds, strings(&["first", "second"]));
}

#[test]
fn distinct_path_lists() {
    assert_eq!(
        distinct_paths(&strings(&["/a/b", "/a//b", "/c", "/a/b/", "/c/."])),
        strings(&["/a/b", "/c"])
    );
    assert_eq!(distinct_paths(&vec![]), Vec::<String>::new());
}

#[test]
fn plain_exec_lines_split_at_blanks() {
    let line = "  run\t--a  b ";
    let args = desktop_exec_split(line).unwrap();
    assert_eq!(args, strings(&["run", "--a", "b"]));
    assert_eq!(args.concat(), line.chars().filter(|c| *c != ' ' && *c != '\t').collect::<String>());
}

#[test]
fn list_items_are_trimmed() {
    for item in split_semicolon_list(" a ;\tb\t; ;c") {
        assert!(!item.is_empty());
        assert_eq!(item.trim(), item);
    }
}

#[test]
fn selection_always_in_range() {
    for count in 1..5 {
        for current in [None, Some(-3), Some(0), Some(2), Some(9)] {
            for mv in [SelectionMove::By(-6), SelectionMove::By(1), SelectionMove::By(i32::MAX), SelectionMove::First, SelectionMove::Last] {
                let v = next_selection(count, current, mv).unwrap();
                assert!(0 <= v && v < count);
            }
        }
    }
}

