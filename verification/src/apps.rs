use vstd::prelude::*;

use crate::command_line::{desktop_exec_split, exec_split_spec};
use crate::desktop_entry::{lookup, DesktopEntry};
use crate::desktop_keys::{
    bool_spec, desktop_environment_allows, environment_allows_spec, locale_candidates,
    localized_key, localized_spec, localized_value, parse_bool, pick_localized,
};
use crate::paths::{same_path, same_path_spec};
use crate::text::{
    char_views,
    chars_equal, chars_of, lemma_lex_total, lemma_lex_transitive, lex_less, lex_less_than,
    string_of, string_views, to_lowercase, trim, trim_spec, unicode_lowercase,
};

verus! {

/// A launchable application, as read from its desktop file.
#[derive(Clone, Debug)]
pub struct AppInfo {
    /// The localized `Name`.
    pub name: String,
    /// The `Exec` line.
    pub command: String,
    /// The `Icon`, or `application-x-executable`.
    pub icon: String,
    /// The localized `Comment`, possibly empty.
    pub comment: String,
    /// The path of the desktop file.
    pub desktop_file: String,
    /// Whether it runs in a terminal.
    pub terminal: bool,
    /// Whether it is D-Bus activatable.
    pub dbus_activatable: bool,
    /// The lower-case name, comment and `Exec` line that searches match against.
    pub search_text: String,
}

/// An application as values.
pub struct AppView {
    pub name: Seq<char>,
    pub command: Seq<char>,
    pub icon: Seq<char>,
    pub comment: Seq<char>,
    pub desktop_file: Seq<char>,
    pub terminal: bool,
    pub dbus_activatable: bool,
    pub search_text: Seq<char>,
}

/// The values of `a`.
pub open spec fn app_view(a: AppInfo) -> AppView {
    AppView {
        name: a.name@,
        command: a.command@,
        icon: a.icon@,
        comment: a.comment@,
        desktop_file: a.desktop_file@,
        terminal: a.terminal,
        dbus_activatable: a.dbus_activatable,
        search_text: a.search_text@,
    }
}

/// What a desktop entry comes to.
pub enum EntryOutcome {
    /// Not an application to list.
    Skipped,
    /// An application whose `Exec` line does not split; it is not listed.
    MalformedExec(String),
    /// An application to list.
    Listed(AppInfo),
}

/// What a desktop entry comes to, as values.
pub enum OutcomeView {
    Skipped,
    MalformedExec(Seq<char>),
    Listed(AppView),
}

/// The values of `o`.
pub open spec fn outcome_view(o: EntryOutcome) -> OutcomeView {
    match o {
        EntryOutcome::Skipped => OutcomeView::Skipped,
        EntryOutcome::MalformedExec(e) => OutcomeView::MalformedExec(e@),
        EntryOutcome::Listed(a) => OutcomeView::Listed(app_view(a)),
    }
}

/// The command that `TryExec` asks for, trimmed, where it is set and not blank.
pub open spec fn try_exec_spec(m: Map<Seq<char>, Seq<char>>) -> Option<Seq<char>> {
    match lookup(m, "TryExec"@) {
        Some(v) => if trim_spec(v).len() > 0 {
            Some(trim_spec(v))
        } else {
            None
        },
        None => None,
    }
}

/// The command whose presence `TryExec` asks for, if any.
pub fn try_exec_target(entry: &DesktopEntry) -> (r: Option<String>)
    ensures
        match r {
            Some(c) => try_exec_spec(entry@) == Some(c@),
            None => try_exec_spec(entry@) is None,
        },
{
    match entry.get("TryExec") {
        Some(v) => {
            let c = chars_of(v.as_str());
            let t = trim(c.as_slice());
            if t.len() > 0 {
                Some(string_of(t.as_slice()))
            } else {
                None
            }
        },
        None => None,
    }
}

/// The text that searches match: the lower-case name, comment and `Exec` line, joined by spaces.
pub open spec fn search_text_spec(name: Seq<char>, comment: Seq<char>, command: Seq<char>) -> Seq<
    char,
> {
    unicode_lowercase(name) + seq![' '] + unicode_lowercase(comment) + seq![' ']
        + unicode_lowercase(command)
}

/// What the entry `m` read from `file` comes to, for `locale` on the desktops `desktops`, with
/// `try_exec_found` telling whether the command that `TryExec` names exists. Skipped are
/// entries whose `Type` is set and not `Application`, hidden ones (`Hidden` or `NoDisplay`),
/// those whose `TryExec` command is missing, those that `OnlyShowIn` or `NotShowIn` keep off
/// these desktops, and those with a blank name or `Exec` line. The icon defaults to
/// `application-x-executable`, the comment to empty.
pub open spec fn entry_outcome_spec(
    m: Map<Seq<char>, Seq<char>>,
    file: Seq<char>,
    locale: Seq<char>,
    desktops: Seq<Seq<char>>,
    try_exec_found: bool,
) -> OutcomeView {
    let name = match localized_spec(m, "Name"@, locale) {
        Some(n) => n,
        None => Seq::empty(),
    };
    let command = match lookup(m, "Exec"@) {
        Some(e) => e,
        None => Seq::empty(),
    };
    if lookup(m, "Type"@) is Some && lookup(m, "Type"@)->0 != "Application"@ {
        OutcomeView::Skipped
    } else if bool_spec(lookup(m, "Hidden"@)) || bool_spec(lookup(m, "NoDisplay"@)) {
        OutcomeView::Skipped
    } else if try_exec_spec(m) is Some && !try_exec_found {
        OutcomeView::Skipped
    } else if !environment_allows_spec(m, desktops) {
        OutcomeView::Skipped
    } else if trim_spec(name).len() == 0 {
        OutcomeView::Skipped
    } else if trim_spec(command).len() == 0 {
        OutcomeView::Skipped
    } else if exec_split_spec(command) is None {
        OutcomeView::MalformedExec(command)
    } else {
        let icon = match lookup(m, "Icon"@) {
            Some(i) => if trim_spec(i).len() > 0 {
                i
            } else {
                "application-x-executable"@
            },
            None => "application-x-executable"@,
        };
        let comment = match localized_spec(m, "Comment"@, locale) {
            Some(c) => c,
            None => Seq::empty(),
        };
        OutcomeView::Listed(
            AppView {
                name,
                command,
                icon,
                comment,
                desktop_file: file,
                terminal: bool_spec(lookup(m, "Terminal"@)),
                dbus_activatable: bool_spec(lookup(m, "DBusActivatable"@)),
                search_text: search_text_spec(name, comment, command),
            },
        )
    }
}

/// Whether `m1` and `m2` agree on every key but `Hidden` and `NoDisplay`.
pub open spec fn agree_but_flags(m1: Map<Seq<char>, Seq<char>>, m2: Map<Seq<char>, Seq<char>>) -> bool {
    forall|k: Seq<char>|
        k != "Hidden"@ && k != "NoDisplay"@ ==> #[trigger] lookup(m1, k) == lookup(m2, k)
}

proof fn lemma_localized_ignores_flags(
    m1: Map<Seq<char>, Seq<char>>,
    m2: Map<Seq<char>, Seq<char>>,
    base: Seq<char>,
    cs: Seq<Seq<char>>,
)
    requires
        agree_but_flags(m1, m2),
        base != "Hidden"@ && base != "NoDisplay"@,
        forall|x: Seq<char>|
            #[trigger] localized_key(base, x) != "Hidden"@ && localized_key(base, x)
                != "NoDisplay"@,
    ensures
        pick_localized(m1, base, cs) == pick_localized(m2, base, cs),
    decreases cs.len(),
{
    assert(lookup(m1, base) == lookup(m2, base));
    if cs.len() > 0 {
        let key = localized_key(base, cs[0]);
        assert(lookup(m1, key) == lookup(m2, key));
        lemma_localized_ignores_flags(m1, m2, base, cs.drop_first());
    }
}

proof fn lemma_localized_keys_not_flags(base: Seq<char>)
    requires
        base == "Name"@ || base == "Comment"@,
    ensures
        base != "Hidden"@ && base != "NoDisplay"@,
        forall|x: Seq<char>|
            #[trigger] localized_key(base, x) != "Hidden"@ && localized_key(base, x)
                != "NoDisplay"@,
{
    reveal_strlit("Name");
    reveal_strlit("Comment");
    reveal_strlit("Hidden");
    reveal_strlit("NoDisplay");
    assert(base.len() != "Hidden"@.len() && base.len() != "NoDisplay"@.len());
    assert forall|x: Seq<char>|
        #[trigger] localized_key(base, x) != "Hidden"@ && localized_key(base, x)
            != "NoDisplay"@ by {
        let k = localized_key(base, x);
        assert(k[0] == base[0] && k[1] == base[1]);
        assert("Hidden"@[0] == 'H' && "NoDisplay"@[1] == 'o');
    }
}

/// Two entries that agree on every key but `Hidden` and `NoDisplay`, and read those two keys
/// as the same booleans, come to the same outcome.
proof fn lemma_outcome_reads_flags_as_booleans(
    m1: Map<Seq<char>, Seq<char>>,
    m2: Map<Seq<char>, Seq<char>>,
    file: Seq<char>,
    locale: Seq<char>,
    desktops: Seq<Seq<char>>,
    try_exec_found: bool,
)
    requires
        agree_but_flags(m1, m2),
        bool_spec(lookup(m1, "Hidden"@)) == bool_spec(lookup(m2, "Hidden"@)),
        bool_spec(lookup(m1, "NoDisplay"@)) == bool_spec(lookup(m2, "NoDisplay"@)),
    ensures
        entry_outcome_spec(m1, file, locale, desktops, try_exec_found) == entry_outcome_spec(
            m2,
            file,
            locale,
            desktops,
            try_exec_found,
        ),
{
    reveal_strlit("Hidden");
    reveal_strlit("NoDisplay");
    reveal_strlit("Type");
    reveal_strlit("Exec");
    reveal_strlit("TryExec");
    reveal_strlit("Icon");
    reveal_strlit("Terminal");
    reveal_strlit("DBusActivatable");
    reveal_strlit("OnlyShowIn");
    reveal_strlit("NotShowIn");
    assert("NotShowIn"@[2] != "NoDisplay"@[2]);
    assert("Type"@.len() == 4 && "Exec"@.len() == 4 && "Hidden"@.len() == 6);
    assert("Type"@ != "Hidden"@ && "Type"@ != "NoDisplay"@);
    assert("Exec"@ != "Hidden"@ && "Exec"@ != "NoDisplay"@);
    assert(lookup(m1, "Type"@) == lookup(m2, "Type"@));
    assert(lookup(m1, "Exec"@) == lookup(m2, "Exec"@));
    assert(lookup(m1, "TryExec"@) == lookup(m2, "TryExec"@));
    assert(lookup(m1, "Icon"@) == lookup(m2, "Icon"@));
    assert(lookup(m1, "Terminal"@) == lookup(m2, "Terminal"@));
    assert(lookup(m1, "DBusActivatable"@) == lookup(m2, "DBusActivatable"@));
    assert(lookup(m1, "OnlyShowIn"@) == lookup(m2, "OnlyShowIn"@));
    assert(lookup(m1, "NotShowIn"@) == lookup(m2, "NotShowIn"@));
    assert(try_exec_spec(m1) == try_exec_spec(m2));
    assert(environment_allows_spec(m1, desktops) == environment_allows_spec(m2, desktops));
    lemma_localized_keys_not_flags("Name"@);
    lemma_localized_keys_not_flags("Comment"@);
    lemma_localized_ignores_flags(m1, m2, "Name"@, locale_candidates(locale));
    lemma_localized_ignores_flags(m1, m2, "Comment"@, locale_candidates(locale));
}

/// `Hidden` and `NoDisplay` hide an entry only when they read as the boolean true: with any
/// other value (`false`, an empty value, anything else) the entry comes to exactly what it
/// comes to without the key; with a true value it is skipped.
pub proof fn law_visibility_flags_are_booleans(
    m: Map<Seq<char>, Seq<char>>,
    key: Seq<char>,
    v: Seq<char>,
    file: Seq<char>,
    locale: Seq<char>,
    desktops: Seq<Seq<char>>,
    try_exec_found: bool,
)
    requires
        key == "Hidden"@ || key == "NoDisplay"@,
    ensures
        !bool_spec(Some(v)) ==> entry_outcome_spec(
            m.insert(key, v),
            file,
            locale,
            desktops,
            try_exec_found,
        ) == entry_outcome_spec(m.remove(key), file, locale, desktops, try_exec_found),
        bool_spec(Some(v)) ==> entry_outcome_spec(
            m.insert(key, v),
            file,
            locale,
            desktops,
            try_exec_found,
        ) == OutcomeView::Skipped,
{
    reveal_strlit("Hidden");
    reveal_strlit("NoDisplay");
    let (m1, m2) = (m.insert(key, v), m.remove(key));
    assert("Hidden"@.len() != "NoDisplay"@.len());
    let other = if key == "Hidden"@ {
        "NoDisplay"@
    } else {
        "Hidden"@
    };
    assert(lookup(m1, key) == Some(v));
    assert(lookup(m2, key) is None);
    assert(lookup(m1, other) == lookup(m2, other));
    if !bool_spec(Some(v)) {
        assert forall|k: Seq<char>| k != "Hidden"@ && k != "NoDisplay"@ implies #[trigger] lookup(
            m1,
            k,
        ) == lookup(m2, k) by {
            assert(k != key);
        }
        lemma_outcome_reads_flags_as_booleans(m1, m2, file, locale, desktops, try_exec_found);
    }
}

fn blank(s: &String) -> (r: bool)
    ensures
        r == (trim_spec(s@).len() == 0),
{
    let c = chars_of(s.as_str());
    let t = trim(c.as_slice());
    t.len() == 0
}

/// The search text for already lower-case name, comment and `Exec` line: the three joined by
/// spaces.
pub fn join_search_text(lower_name: &str, lower_comment: &str, lower_command: &str) -> (r: String)
    ensures
        r@ == lower_name@ + seq![' '] + lower_comment@ + seq![' '] + lower_command@,
{
    let mut out = lower_name.to_owned();
    out.append(" ");
    out.append(lower_comment);
    out.append(" ");
    out.append(lower_command);
    proof {
        reveal_strlit(" ");
    }
    out
}

/// The search text of an application with this name, comment and `Exec` line.
pub fn search_text_of(name: &str, comment: &str, command: &str) -> (r: String)
    ensures
        r@ == search_text_spec(name@, comment@, command@),
{
    let n = to_lowercase(chars_of(name).as_slice());
    let c = to_lowercase(chars_of(comment).as_slice());
    let e = to_lowercase(chars_of(command).as_slice());
    join_search_text(
        string_of(n.as_slice()).as_str(),
        string_of(c.as_slice()).as_str(),
        string_of(e.as_slice()).as_str(),
    )
}

/// Decides what the desktop entry `entry`, read from `desktop_file`, comes to.
pub fn evaluate_entry(
    entry: &DesktopEntry,
    desktop_file: &str,
    locale: &str,
    desktops: &Vec<String>,
    try_exec_found: bool,
) -> (r: EntryOutcome)
    ensures
        outcome_view(r) == entry_outcome_spec(
            entry@,
            desktop_file@,
            locale@,
            string_views(desktops@),
            try_exec_found,
        ),
{
    match entry.get("Type") {
        Some(t) => {
            let tc = chars_of(t.as_str());
            let app_word = chars_of("Application");
            if !chars_equal(tc.as_slice(), app_word.as_slice()) {
                return EntryOutcome::Skipped;
            }
        },
        None => {},
    }
    if parse_bool(entry.get("Hidden")) || parse_bool(entry.get("NoDisplay")) {
        return EntryOutcome::Skipped;
    }
    match try_exec_target(entry) {
        Some(_) => {
            if !try_exec_found {
                return EntryOutcome::Skipped;
            }
        },
        None => {},
    }
    if !desktop_environment_allows(entry, desktops) {
        return EntryOutcome::Skipped;
    }
    let name = match localized_value(entry, "Name", locale) {
        Some(n) => n,
        None => String::new(),
    };
    if blank(&name) {
        return EntryOutcome::Skipped;
    }
    let command = match entry.get("Exec") {
        Some(e) => e.clone(),
        None => String::new(),
    };
    if blank(&command) {
        return EntryOutcome::Skipped;
    }
    match desktop_exec_split(command.as_str()) {
        Some(_) => {},
        None => return EntryOutcome::MalformedExec(command),
    }
    let icon = match entry.get("Icon") {
        Some(i) => {
            if blank(i) {
                String::from_str("application-x-executable")
            } else {
                i.clone()
            }
        },
        None => String::from_str("application-x-executable"),
    };
    let comment = match localized_value(entry, "Comment", locale) {
        Some(c) => c,
        None => String::new(),
    };
    let terminal = parse_bool(entry.get("Terminal"));
    let dbus_activatable = parse_bool(entry.get("DBusActivatable"));
    let search_text = search_text_of(name.as_str(), comment.as_str(), command.as_str());
    let file = desktop_file.to_owned();
    assert(lookup(entry@, "Exec"@) == Some(command@));
    assert(name@ == match localized_spec(entry@, "Name"@, locale@) {
        Some(n) => n,
        None => Seq::<char>::empty(),
    });
    assert(comment@ == match localized_spec(entry@, "Comment"@, locale@) {
        Some(c) => c,
        None => Seq::<char>::empty(),
    });
    EntryOutcome::Listed(
        AppInfo {
            name,
            command,
            icon,
            comment,
            desktop_file: file,
            terminal,
            dbus_activatable,
            search_text,
        },
    )
}


// ------------------------------------------------------------------
// The list of applications
// ------------------------------------------------------------------

/// Two applications with the same key are the same application: the lower-case name and the
/// lower-case trimmed `Exec` line, joined by a newline.
pub open spec fn dedup_key(a: AppInfo) -> Seq<char> {
    unicode_lowercase(a.name@) + seq!['\n'] + unicode_lowercase(trim_spec(a.command@))
}

/// Whether an entry with sort key `ka` and name `na` is listed before one with `kb` and `nb`:
/// by sort key, then by name, in `String` order.
pub open spec fn keyed_before(ka: Seq<char>, na: Seq<char>, kb: Seq<char>, nb: Seq<char>) -> bool {
    lex_less(ka, kb) || (ka == kb && lex_less(na, nb))
}

/// Whether `a` is listed before `b`: by lower-case name, then by name, in `String` order.
pub open spec fn name_before(a: AppInfo, b: AppInfo) -> bool {
    keyed_before(unicode_lowercase(a.name@), a.name@, unicode_lowercase(b.name@), b.name@)
}

/// `apps` is ordered by name: no application is listed before one that it comes after.
pub open spec fn sorted_by_name(apps: Seq<AppInfo>) -> bool {
    forall|k: int, l: int|
        0 <= k < l < apps.len() ==> !name_before(#[trigger] apps[l], #[trigger] apps[k])
}

/// No two of `apps` have the same key.
pub open spec fn distinct_keys(apps: Seq<AppInfo>) -> bool {
    forall|k: int, l: int|
        0 <= k < l < apps.len() ==> dedup_key(#[trigger] apps[k]) != dedup_key(#[trigger] apps[l])
}

proof fn lemma_keyed_total(ka: Seq<char>, na: Seq<char>, kb: Seq<char>, nb: Seq<char>)
    ensures
        !keyed_before(ka, na, kb, nb) && !keyed_before(kb, nb, ka, na) ==> ka == kb && na == nb,
        !(keyed_before(ka, na, kb, nb) && keyed_before(kb, nb, ka, na)),
{
    lemma_lex_total(ka, kb);
    lemma_lex_total(na, nb);
}

proof fn lemma_keyed_transitive(
    ka: Seq<char>,
    na: Seq<char>,
    kb: Seq<char>,
    nb: Seq<char>,
    kc: Seq<char>,
    nc: Seq<char>,
)
    requires
        keyed_before(ka, na, kb, nb),
        !keyed_before(kc, nc, kb, nb),
    ensures
        keyed_before(ka, na, kc, nc),
{
    lemma_lex_total(kb, kc);
    lemma_lex_total(nb, nc);
    if lex_less(ka, kb) {
        if lex_less(kb, kc) {
            lemma_lex_transitive(ka, kb, kc);
        }
    } else if kb == kc && lex_less(nb, nc) {
        lemma_lex_transitive(na, nb, nc);
    }
}

fn precedes(key_a: &[char], name_a: &[char], key_b: &[char], name_b: &[char]) -> (r: bool)
    ensures
        r == keyed_before(key_a@, name_a@, key_b@, name_b@),
{
    lex_less_than(key_a, key_b) || (chars_equal(key_a, key_b) && lex_less_than(name_a, name_b))
}

/// Whether one of `apps` comes from a desktop file with the same path as `file`.
pub open spec fn lists_file(apps: Seq<AppInfo>, file: Seq<char>) -> bool {
    exists|k: int| 0 <= k < apps.len() && same_path_spec(#[trigger] apps[k].desktop_file@, file)
}

/// No two of `apps` come from desktop files with the same path.
pub open spec fn distinct_files(apps: Seq<AppInfo>) -> bool {
    forall|k: int, l: int|
        0 <= k < l < apps.len() ==> !same_path_spec(
            #[trigger] apps[k].desktop_file@,
            #[trigger] apps[l].desktop_file@,
        )
}

/// The applications found so far, kept in order of their sort keys and names without two with
/// the same duplicate key, and the desktop files already visited.
pub struct AppCatalog {
    apps: Vec<AppInfo>,
    sort_keys: Vec<Vec<char>>,
    keys: Vec<Vec<char>>,
    files: Vec<String>,
}

impl AppCatalog {
    /// The applications listed so far, in order.
    pub closed spec fn listed(&self) -> Seq<AppInfo> {
        self.apps@
    }

    /// The sort key of each listed application.
    pub closed spec fn sort_keys(&self) -> Seq<Seq<char>> {
        char_views(self.sort_keys@)
    }

    /// The duplicate key of each listed application.
    pub closed spec fn dedup_keys(&self) -> Seq<Seq<char>> {
        char_views(self.keys@)
    }

    /// The desktop files visited so far.
    pub closed spec fn visited(&self) -> Seq<Seq<char>> {
        string_views(self.files@)
    }

    /// The catalog's own invariant: one sort key and one duplicate key per application, the
    /// applications in order, no duplicate key twice and no desktop file twice.
    #[verifier::type_invariant]
    pub open spec fn wf(&self) -> bool {
        let (apps, sk, dk) = (self.listed(), self.sort_keys(), self.dedup_keys());
        &&& sk.len() == apps.len()
        &&& dk.len() == apps.len()
        &&& forall|k: int, l: int|
            0 <= k < l < apps.len() ==> !keyed_before(
                #[trigger] sk[l],
                apps[l].name@,
                #[trigger] sk[k],
                apps[k].name@,
            )
        &&& forall|k: int, l: int| 0 <= k < l < apps.len() ==> #[trigger] dk[k] != #[trigger] dk[l]
        &&& distinct_files(apps)
    }

    /// Every key is the one the application's name and `Exec` line give it.
    pub open spec fn genuine(&self) -> bool {
        forall|k: int|
            0 <= k < self.listed().len() ==> #[trigger] self.sort_keys()[k] == unicode_lowercase(
                self.listed()[k].name@,
            ) && self.dedup_keys()[k] == dedup_key(self.listed()[k])
    }

    /// An empty catalog.
    pub fn new() -> (r: AppCatalog)
        ensures
            r.genuine(),
            r.listed() == Seq::<AppInfo>::empty(),
            r.visited() == Seq::<Seq<char>>::empty(),
    {
        let r = AppCatalog {
            apps: Vec::new(),
            sort_keys: Vec::new(),
            keys: Vec::new(),
            files: Vec::new(),
        };
        assert(r.visited() =~= Seq::<Seq<char>>::empty());
        assert(r.sort_keys() =~= Seq::<Seq<char>>::empty());
        assert(r.dedup_keys() =~= Seq::<Seq<char>>::empty());
        r
    }

    /// Records a visit of the desktop file `file` (a canonical path); false where a file with
    /// the same path was visited before, and then it is not recorded again.
    pub fn first_visit(&mut self, file: &str) -> (r: bool)
        ensures
            final(self).listed() == old(self).listed(),
            final(self).sort_keys() == old(self).sort_keys(),
            final(self).dedup_keys() == old(self).dedup_keys(),
            r == !exists|k: int|
                0 <= k < old(self).visited().len() && same_path_spec(
                    #[trigger] old(self).visited()[k],
                    file@,
                ),
            final(self).visited() == if r {
                old(self).visited().push(file@)
            } else {
                old(self).visited()
            },
    {
        proof {
            use_type_invariant(&*self);
        }
        let ghost seen = string_views(self.files@);
        let mut k: usize = 0;
        while k < self.files.len()
            invariant
                k <= self.files@.len(),
                *self == *old(self),
                self.wf(),
                seen == string_views(self.files@),
                forall|j: int| 0 <= j < k ==> !same_path_spec(#[trigger] seen[j], file@),
            decreases self.files@.len() - k,
        {
            let same = same_path(self.files[k].as_str(), file);
            assert(seen[k as int] == self.files@[k as int]@);
            if same {
                assert(same_path_spec(old(self).visited()[k as int], file@));
                return false;
            }
            k = k + 1;
        }
        let mut taken = AppCatalog::new();
        proof {
            use_type_invariant(&taken);
        }
        std::mem::swap(self, &mut taken);
        let AppCatalog { apps, sort_keys, keys, mut files } = taken;
        files.push(file.to_owned());
        assert(string_views(files@) =~= seen.push(file@));
        *self = AppCatalog { apps, sort_keys, keys, files };
        true
    }

    /// Adds `app` with the sort key `sort_key` and the duplicate key `key`, after the entries that
    /// it does not come before; false where `key` is already listed or an application from the
    /// same desktop file is, and then the catalog is unchanged.
    pub fn add_keyed(&mut self, app: AppInfo, sort_key: Vec<char>, key: Vec<char>) -> (r: bool)
        ensures
            final(self).visited() == old(self).visited(),
            r == (!old(self).dedup_keys().contains(key@) && !lists_file(
                old(self).listed(),
                app.desktop_file@,
            )),
            !r ==> final(self).listed() == old(self).listed() && final(self).sort_keys() == old(
                self,
            ).sort_keys() && final(self).dedup_keys() == old(self).dedup_keys(),
            r ==> exists|p: int|
                #![trigger old(self).listed().insert(p, app)]
                {
                    let (apps, sk) = (old(self).listed(), old(self).sort_keys());
                    &&& 0 <= p <= apps.len()
                    &&& final(self).listed() == apps.insert(p, app)
                    &&& final(self).sort_keys() == sk.insert(p, sort_key@)
                    &&& final(self).dedup_keys() == old(self).dedup_keys().insert(p, key@)
                    &&& forall|k: int|
                        0 <= k < p ==> !keyed_before(
                            sort_key@,
                            app.name@,
                            #[trigger] sk[k],
                            apps[k].name@,
                        )
                    &&& forall|k: int|
                        p <= k < apps.len() ==> keyed_before(
                            sort_key@,
                            app.name@,
                            #[trigger] sk[k],
                            apps[k].name@,
                        )
                },
            old(self).genuine() && sort_key@ == unicode_lowercase(app.name@) && key@ == dedup_key(
                app,
            ) ==> final(self).genuine(),
    {
        proof {
            use_type_invariant(&*self);
        }
        let ghost sk = self.sort_keys();
        let ghost dk = self.dedup_keys();
        let n = self.apps.len();
        let mut k: usize = 0;
        let mut listed = false;
        while k < n && !listed
            invariant
                k <= n == self.apps@.len(),
                *self == *old(self),
                self.wf(),
                sk == self.sort_keys(),
                dk == self.dedup_keys(),
                listed ==> dk.contains(key@),
                !listed ==> forall|i: int| 0 <= i < k ==> #[trigger] dk[i] != key@,
            decreases n - k,
        {
            assert(dk[k as int] == self.keys@[k as int]@);
            if chars_equal(self.keys[k].as_slice(), key.as_slice()) {
                assert(dk[k as int] == key@);
                listed = true;
            }
            k = k + 1;
        }
        if listed {
            return false;
        }
        assert(!dk.contains(key@));
        let ghost apps0 = self.apps@;
        let mut f: usize = 0;
        while f < n
            invariant
                f <= n == self.apps@.len(),
                *self == *old(self),
                self.wf(),
                apps0 == self.apps@,
                forall|i: int|
                    0 <= i < f ==> !same_path_spec(#[trigger] apps0[i].desktop_file@, app.desktop_file@),
            decreases n - f,
        {
            if same_path(self.apps[f].desktop_file.as_str(), app.desktop_file.as_str()) {
                assert(same_path_spec(apps0[f as int].desktop_file@, app.desktop_file@));
                return false;
            }
            f = f + 1;
        }
        assert(!lists_file(apps0, app.desktop_file@));
        let name = chars_of(app.name.as_str());
        let mut p: usize = 0;
        while p < n && !precedes(
            sort_key.as_slice(),
            name.as_slice(),
            self.sort_keys[p].as_slice(),
            chars_of(self.apps[p].name.as_str()).as_slice(),
        )
            invariant
                p <= n == self.apps@.len(),
                *self == *old(self),
                self.wf(),
                sk == self.sort_keys(),
                name@ == app.name@,
                forall|i: int|
                    0 <= i < p ==> !keyed_before(
                        sort_key@,
                        app.name@,
                        #[trigger] sk[i],
                        self.apps@[i].name@,
                    ),
            decreases n - p,
        {
            assert(sk[p as int] == self.sort_keys@[p as int]@);
            p = p + 1;
        }
        let ghost apps = self.apps@;
        proof {
            if p < n {
                assert(sk[p as int] == self.sort_keys@[p as int]@);
            }
            assert forall|i: int| p <= i < n implies keyed_before(
                sort_key@,
                app.name@,
                #[trigger] sk[i],
                apps[i].name@,
            ) by {
                if i > p {
                    lemma_keyed_transitive(
                        sort_key@,
                        app.name@,
                        sk[p as int],
                        apps[p as int].name@,
                        sk[i],
                        apps[i].name@,
                    );
                }
            }
        }
        let ghost (sk_new, dk_new) = (sk.insert(p as int, sort_key@), dk.insert(p as int, key@));
        let mut taken = AppCatalog::new();
        proof {
            use_type_invariant(&taken);
        }
        std::mem::swap(self, &mut taken);
        let AppCatalog { apps: mut all, sort_keys: mut sorted, keys: mut dup, files } = taken;
        all.insert(p, app);
        sorted.insert(p, sort_key);
        dup.insert(p, key);
        assert(char_views(sorted@) =~= sk_new);
        assert(char_views(dup@) =~= dk_new);
        proof {
            let a = all@;
            let (s2, d2) = (sk_new, dk_new);
            assert forall|i: int, l: int| 0 <= i < l < a.len() implies !keyed_before(
                #[trigger] s2[l],
                a[l].name@,
                #[trigger] s2[i],
                a[i].name@,
            ) by {
                let pp = p as int;
                if l < pp {
                    assert(a[i] == apps[i] && a[l] == apps[l] && s2[i] == sk[i] && s2[l] == sk[l]);
                } else if l == pp {
                    assert(a[i] == apps[i] && s2[i] == sk[i]);
                    lemma_keyed_total(s2[l], a[l].name@, s2[i], a[i].name@);
                } else if i == pp {
                    assert(a[l] == apps[l - 1] && s2[l] == sk[l - 1]);
                    lemma_keyed_total(s2[i], a[i].name@, s2[l], a[l].name@);
                } else if i < pp {
                    assert(a[i] == apps[i] && a[l] == apps[l - 1]);
                    assert(s2[i] == sk[i] && s2[l] == sk[l - 1]);
                    lemma_keyed_total(s2[i], a[i].name@, s2[l], a[l].name@);
                    if keyed_before(s2[l], a[l].name@, s2[i], a[i].name@) {
                        lemma_keyed_transitive(
                            s2[l],
                            a[l].name@,
                            s2[i],
                            a[i].name@,
                            s2[pp],
                            a[pp].name@,
                        );
                        lemma_keyed_total(s2[pp], a[pp].name@, s2[l], a[l].name@);
                    }
                } else {
                    assert(a[i] == apps[i - 1] && a[l] == apps[l - 1]);
                    assert(s2[i] == sk[i - 1] && s2[l] == sk[l - 1]);
                }
            }
            assert forall|i: int, l: int| 0 <= i < l < a.len() implies #[trigger] d2[i]
                != #[trigger] d2[l] by {
                let pp = p as int;
                if l < pp {
                    assert(d2[i] == dk[i] && d2[l] == dk[l]);
                } else if l == pp {
                    assert(d2[i] == dk[i]);
                } else if i == pp {
                    assert(d2[l] == dk[l - 1]);
                } else if i < pp {
                    assert(d2[i] == dk[i] && d2[l] == dk[l - 1]);
                } else {
                    assert(d2[i] == dk[i - 1] && d2[l] == dk[l - 1]);
                }
            }
            assert forall|i: int, l: int| 0 <= i < l < a.len() implies !same_path_spec(
                #[trigger] a[i].desktop_file@,
                #[trigger] a[l].desktop_file@,
            ) by {
                let pp = p as int;
                if l < pp {
                    assert(a[i] == apps[i] && a[l] == apps[l]);
                } else if l == pp {
                    assert(a[i] == apps[i]);
                } else if i == pp {
                    assert(a[l] == apps[l - 1]);
                } else if i < pp {
                    assert(a[i] == apps[i] && a[l] == apps[l - 1]);
                } else {
                    assert(a[i] == apps[i - 1] && a[l] == apps[l - 1]);
                }
            }
            assert(a == apps.insert(p as int, app));
            if old(self).genuine() && s2[p as int] == unicode_lowercase(app.name@) && d2[p as int]
                == dedup_key(app) {
                assert forall|i: int| 0 <= i < a.len() implies #[trigger] s2[i]
                    == unicode_lowercase(a[i].name@) && d2[i] == dedup_key(a[i]) by {
                    let pp = p as int;
                    if i < pp {
                        assert(a[i] == apps[i] && s2[i] == sk[i] && d2[i] == dk[i]);
                    } else if i > pp {
                        assert(a[i] == apps[i - 1] && s2[i] == sk[i - 1] && d2[i] == dk[i - 1]);
                    }
                }
            }
        }
        *self = AppCatalog { apps: all, sort_keys: sorted, keys: dup, files };
        true
    }

    /// Adds `app` in name order; false where an application with the same key, or one from the
    /// same desktop file, is already listed, and then the catalog is unchanged.
    pub fn add(&mut self, app: AppInfo) -> (r: bool)
        ensures
            final(self).visited() == old(self).visited(),
            old(self).genuine() ==> final(self).genuine(),
            r == (!old(self).dedup_keys().contains(dedup_key(app)) && !lists_file(
                old(self).listed(),
                app.desktop_file@,
            )),
            !r ==> final(self).listed() == old(self).listed(),
            r ==> exists|p: int|
                #![trigger old(self).listed().insert(p, app)]
                {
                    let (apps, sk) = (old(self).listed(), old(self).sort_keys());
                    &&& 0 <= p <= apps.len()
                    &&& final(self).listed() == apps.insert(p, app)
                    &&& forall|k: int|
                        0 <= k < p ==> !keyed_before(
                            unicode_lowercase(app.name@),
                            app.name@,
                            #[trigger] sk[k],
                            apps[k].name@,
                        )
                    &&& forall|k: int|
                        p <= k < apps.len() ==> keyed_before(
                            unicode_lowercase(app.name@),
                            app.name@,
                            #[trigger] sk[k],
                            apps[k].name@,
                        )
                },
    {
        let name = chars_of(app.name.as_str());
        let lower = to_lowercase(name.as_slice());
        let cmd = chars_of(app.command.as_str());
        let cmd_trimmed = trim(cmd.as_slice());
        let lower_cmd = to_lowercase(cmd_trimmed.as_slice());
        let mut key = lower.clone();
        key.push('\n');
        let mut j: usize = 0;
        let ghost key_start = key@;
        while j < lower_cmd.len()
            invariant
                j <= lower_cmd@.len(),
                key@ == key_start + lower_cmd@.take(j as int),
            decreases lower_cmd@.len() - j,
        {
            key.push(lower_cmd[j]);
            j = j + 1;
            assert(key@ =~= key_start + lower_cmd@.take(j as int));
        }
        assert(lower_cmd@.take(j as int) =~= lower_cmd@);
        assert(key@ == dedup_key(app));
        self.add_keyed(app, lower, key)
    }

    /// The applications listed, in order.
    pub fn into_apps(self) -> (r: Vec<AppInfo>)
        ensures
            r@ == self.listed(),
            distinct_files(r@),
            self.genuine() ==> sorted_by_name(r@) && distinct_keys(r@),
    {
        proof {
            use_type_invariant(&self);
            if self.genuine() {
                lemma_catalog_in_name_order(self);
            }
        }
        self.apps
    }
}

/// A catalog whose keys are those that names and `Exec` lines give lists its applications in
/// name order, never two with the same duplicate key.
pub proof fn lemma_catalog_in_name_order(c: AppCatalog)
    requires
        c.wf(),
        c.genuine(),
    ensures
        sorted_by_name(c.listed()),
        distinct_keys(c.listed()),
{
    let (apps, sk, dk) = (c.listed(), c.sort_keys(), c.dedup_keys());
    assert forall|k: int, l: int| 0 <= k < l < apps.len() implies !name_before(
        #[trigger] apps[l],
        #[trigger] apps[k],
    ) by {
        assert(sk[k] == unicode_lowercase(apps[k].name@));
        assert(sk[l] == unicode_lowercase(apps[l].name@));
    }
    assert forall|k: int, l: int| 0 <= k < l < apps.len() implies dedup_key(#[trigger] apps[k])
        != dedup_key(#[trigger] apps[l]) by {
        assert(sk[k] == unicode_lowercase(apps[k].name@));
        assert(sk[l] == unicode_lowercase(apps[l].name@));
        assert(dk[k] != dk[l]);
    }
}


/// Two applications are duplicates exactly when both their lower-case names and their
/// lower-case trimmed `Exec` lines are equal (for names whose lower-case form holds no line
/// break, which would blur where the name ends).
pub proof fn law_duplicates_share_name_and_command(a: AppInfo, b: AppInfo)
    requires
        !unicode_lowercase(a.name@).contains('\n'),
        !unicode_lowercase(b.name@).contains('\n'),
    ensures
        (dedup_key(a) == dedup_key(b)) == (unicode_lowercase(a.name@) == unicode_lowercase(b.name@)
            && unicode_lowercase(trim_spec(a.command@)) == unicode_lowercase(
            trim_spec(b.command@),
        )),
{
    let (na, nb) = (unicode_lowercase(a.name@), unicode_lowercase(b.name@));
    let (ca, cb) = (unicode_lowercase(trim_spec(a.command@)), unicode_lowercase(
        trim_spec(b.command@),
    ));
    let (ka, kb) = (dedup_key(a), dedup_key(b));
    if ka == kb {
        if na.len() < nb.len() {
            assert(ka[na.len() as int] == '\n');
            assert(kb[na.len() as int] == nb[na.len() as int]);
            assert(nb.contains(nb[na.len() as int]));
        } else if nb.len() < na.len() {
            assert(kb[nb.len() as int] == '\n');
            assert(ka[nb.len() as int] == na[nb.len() as int]);
            assert(na.contains(na[nb.len() as int]));
        } else {
            assert(na =~= ka.take(na.len() as int));
            assert(nb =~= kb.take(nb.len() as int));
            assert(ca =~= ka.skip(na.len() as int + 1));
            assert(cb =~= kb.skip(nb.len() as int + 1));
        }
    }
}

/// A genuine catalog holds an application's key exactly when it lists an application with the
/// same lower-case name and the same lower-case trimmed `Exec` line; so `add` refuses an
/// application as a duplicate only then.
pub proof fn law_catalog_duplicates(c: AppCatalog, app: AppInfo)
    requires
        c.wf(),
        c.genuine(),
        !unicode_lowercase(app.name@).contains('\n'),
        forall|k: int|
            0 <= k < c.listed().len() ==> !unicode_lowercase(
                (#[trigger] c.listed()[k]).name@,
            ).contains('\n'),
    ensures
        c.dedup_keys().contains(dedup_key(app)) == exists|k: int|
            0 <= k < c.listed().len() && unicode_lowercase((#[trigger] c.listed()[k]).name@)
                == unicode_lowercase(app.name@) && unicode_lowercase(
                trim_spec(c.listed()[k].command@),
            ) == unicode_lowercase(trim_spec(app.command@)),
{
    let (apps, dk) = (c.listed(), c.dedup_keys());
    if dk.contains(dedup_key(app)) {
        let k = choose|k: int| 0 <= k < dk.len() && dk[k] == dedup_key(app);
        assert(c.sort_keys()[k] == unicode_lowercase(apps[k].name@));
        assert(dk[k] == dedup_key(apps[k]));
        law_duplicates_share_name_and_command(apps[k], app);
    }
    if exists|k: int|
        0 <= k < apps.len() && unicode_lowercase((#[trigger] apps[k]).name@) == unicode_lowercase(
            app.name@,
        ) && unicode_lowercase(trim_spec(apps[k].command@)) == unicode_lowercase(
            trim_spec(app.command@),
        ) {
        let k = choose|k: int|
            0 <= k < apps.len() && unicode_lowercase((#[trigger] apps[k]).name@)
                == unicode_lowercase(app.name@) && unicode_lowercase(trim_spec(apps[k].command@))
                == unicode_lowercase(trim_spec(app.command@));
        assert(c.sort_keys()[k] == unicode_lowercase(apps[k].name@));
        assert(dk[k] == dedup_key(apps[k]));
        law_duplicates_share_name_and_command(apps[k], app);
        assert(dk.contains(dedup_key(app)));
    }
}

} // verus!
