use vstd::prelude::*;

use crate::desktop_entry::{lookup, DesktopEntry};
use crate::text::{
    char_views, chars_equal, chars_of, eq_ignore_ascii_case, eq_ignore_ascii_case_spec, find_char,
    lemma_trim_idempotent, slice_chars, split_on, split_spec, string_of, string_views, trim,
    trim_spec,
};

verus! {

// ------------------------------------------------------------------
// Booleans
// ------------------------------------------------------------------

/// A desktop-file boolean: the trimmed value is `true` up to ASCII case.
pub open spec fn bool_spec(value: Option<Seq<char>>) -> bool {
    match value {
        Some(v) => eq_ignore_ascii_case_spec(trim_spec(v), "true"@),
        None => false,
    }
}

/// Reads a desktop-file boolean; a missing key is false.
pub fn parse_bool(value: Option<&String>) -> (r: bool)
    ensures
        r == bool_spec(
            match value {
                Some(v) => Some(v@),
                None => None,
            },
        ),
{
    match value {
        Some(v) => {
            let s = chars_of(v.as_str());
            let t = trim(s.as_slice());
            let word = chars_of("true");
            eq_ignore_ascii_case(t.as_slice(), word.as_slice())
        },
        None => false,
    }
}

// ------------------------------------------------------------------
// Lists
// ------------------------------------------------------------------

/// The trimmed pieces of `pieces` that are not empty, in order.
pub open spec fn trimmed_nonempty(pieces: Seq<Seq<char>>) -> Seq<Seq<char>>
    decreases pieces.len(),
{
    if pieces.len() == 0 {
        Seq::empty()
    } else {
        let prev = trimmed_nonempty(pieces.drop_last());
        let t = trim_spec(pieces.last());
        if t.len() > 0 {
            prev.push(t)
        } else {
            prev
        }
    }
}

/// The trimmed, non-empty pieces of `s` between occurrences of `sep`.
pub open spec fn split_list_spec(s: Seq<char>, sep: char) -> Seq<Seq<char>> {
    trimmed_nonempty(split_spec(s, sep))
}

/// Every item of a list is non-empty and already trimmed.
pub proof fn lemma_list_items_clean(pieces: Seq<Seq<char>>)
    ensures
        forall|k: int|
            0 <= k < trimmed_nonempty(pieces).len() ==> {
                let item = #[trigger] trimmed_nonempty(pieces)[k];
                item.len() > 0 && trim_spec(item) == item
            },
    decreases pieces.len(),
{
    if pieces.len() > 0 {
        lemma_list_items_clean(pieces.drop_last());
        lemma_trim_idempotent(pieces.last());
        let prev = trimmed_nonempty(pieces.drop_last());
        let r = trimmed_nonempty(pieces);
        assert forall|k: int| 0 <= k < r.len() implies {
            let item = #[trigger] r[k];
            item.len() > 0 && trim_spec(item) == item
        } by {
            if k < prev.len() {
                assert(r[k] == prev[k]);
            }
        }
    }
}

fn split_list(s: &[char], sep: char) -> (r: Vec<String>)
    ensures
        string_views(r@) == split_list_spec(s@, sep),
{
    let pieces = split_on(s, sep);
    let ghost ps = char_views(pieces@);
    let mut out: Vec<String> = Vec::new();
    let mut i: usize = 0;
    assert(ps.take(0) =~= Seq::<Seq<char>>::empty());
    while i < pieces.len()
        invariant
            i <= pieces@.len(),
            ps == char_views(pieces@),
            string_views(out@) == trimmed_nonempty(ps.take(i as int)),
        decreases pieces@.len() - i,
    {
        assert(ps.take(i + 1).drop_last() =~= ps.take(i as int));
        assert(ps.take(i + 1).last() == pieces@[i as int]@);
        let t = trim(pieces[i].as_slice());
        if t.len() > 0 {
            let ghost before = string_views(out@);
            out.push(string_of(t.as_slice()));
            assert(string_views(out@) =~= before.push(t@));
        }
        i = i + 1;
    }
    assert(ps.take(pieces@.len() as int) =~= ps);
    out
}

/// The non-empty, trimmed items of a `;`-separated list.
pub fn split_semicolon_list(value: &str) -> (r: Vec<String>)
    ensures
        string_views(r@) == split_list_spec(value@, ';'),
{
    let s = chars_of(value);
    split_list(s.as_slice(), ';')
}

// ------------------------------------------------------------------
// Desktop environments
// ------------------------------------------------------------------

/// The desktops that the session names: the trimmed, non-empty `:`-separated items of
/// `XDG_CURRENT_DESKTOP`, then the trimmed `XDG_SESSION_DESKTOP` if not empty; `Hyprland` where
/// neither names one and a Hyprland instance runs.
pub open spec fn desktop_names_spec(
    current: Option<Seq<char>>,
    session: Option<Seq<char>>,
    hyprland_running: bool,
) -> Seq<Seq<char>> {
    let from_current = match current {
        Some(v) => split_list_spec(v, ':'),
        None => Seq::empty(),
    };
    let names = match session {
        Some(v) => if trim_spec(v).len() > 0 {
            from_current.push(trim_spec(v))
        } else {
            from_current
        },
        None => from_current,
    };
    if names.len() == 0 && hyprland_running {
        seq!["Hyprland"@]
    } else {
        names
    }
}

/// The names of the current desktop, from the values of `XDG_CURRENT_DESKTOP` and
/// `XDG_SESSION_DESKTOP` and whether `HYPRLAND_INSTANCE_SIGNATURE` is set.
pub fn desktop_names(
    current: Option<String>,
    session: Option<String>,
    hyprland_running: bool,
) -> (r: Vec<String>)
    ensures
        string_views(r@) == desktop_names_spec(
            match current {
                Some(v) => Some(v@),
                None => None,
            },
            match session {
                Some(v) => Some(v@),
                None => None,
            },
            hyprland_running,
        ),
{
    let mut names: Vec<String> = match &current {
        Some(v) => {
            let s = chars_of(v.as_str());
            split_list(s.as_slice(), ':')
        },
        None => {
            let empty: Vec<String> = Vec::new();
            assert(string_views(empty@) =~= Seq::<Seq<char>>::empty());
            empty
        },
    };
    match &session {
        Some(v) => {
            let s = chars_of(v.as_str());
            let t = trim(s.as_slice());
            if t.len() > 0 {
                let ghost before = string_views(names@);
                names.push(string_of(t.as_slice()));
                assert(string_views(names@) =~= before.push(t@));
            }
        },
        None => {},
    }
    if names.len() == 0 && hyprland_running {
        let mut only: Vec<String> = Vec::new();
        only.push(String::from_str("Hyprland"));
        assert(string_views(only@) =~= seq!["Hyprland"@]);
        return only;
    }
    names
}

/// Whether some item of `list` names, up to ASCII case, some desktop of `current`.
pub open spec fn names_any(list: Seq<Seq<char>>, current: Seq<Seq<char>>) -> bool {
    exists|i: int, j: int|
        0 <= i < list.len() && 0 <= j < current.len() && eq_ignore_ascii_case_spec(
            #[trigger] current[j],
            #[trigger] list[i],
        )
}

/// Whether an entry may be shown on the desktops `current`: a non-empty `OnlyShowIn` list must
/// name one of them, and a `NotShowIn` list must name none.
pub open spec fn environment_allows_spec(
    m: Map<Seq<char>, Seq<char>>,
    current: Seq<Seq<char>>,
) -> bool {
    let only_ok = match lookup(m, "OnlyShowIn"@) {
        Some(v) => {
            let allowed = split_list_spec(v, ';');
            allowed.len() == 0 || names_any(allowed, current)
        },
        None => true,
    };
    let not_ok = match lookup(m, "NotShowIn"@) {
        Some(v) => !names_any(split_list_spec(v, ';'), current),
        None => true,
    };
    only_ok && not_ok
}

fn any_named(list: &Vec<String>, current: &Vec<String>) -> (r: bool)
    ensures
        r == names_any(string_views(list@), string_views(current@)),
{
    let ghost l = string_views(list@);
    let ghost c = string_views(current@);
    let mut i: usize = 0;
    while i < list.len()
        invariant
            i <= list@.len(),
            l == string_views(list@),
            c == string_views(current@),
            forall|a: int, b: int|
                0 <= a < i && 0 <= b < c.len() ==> !eq_ignore_ascii_case_spec(
                    #[trigger] c[b],
                    #[trigger] l[a],
                ),
        decreases list@.len() - i,
    {
        let item = chars_of(list[i].as_str());
        let mut j: usize = 0;
        while j < current.len()
            invariant
                i < list@.len(),
                j <= current@.len(),
                l == string_views(list@),
                c == string_views(current@),
                item@ == l[i as int],
                forall|a: int, b: int|
                    0 <= a < i && 0 <= b < c.len() ==> !eq_ignore_ascii_case_spec(
                        #[trigger] c[b],
                        #[trigger] l[a],
                    ),
                forall|b: int|
                    0 <= b < j ==> !eq_ignore_ascii_case_spec(#[trigger] c[b], l[i as int]),
            decreases current@.len() - j,
        {
            let desk = chars_of(current[j].as_str());
            if eq_ignore_ascii_case(desk.as_slice(), item.as_slice()) {
                assert(eq_ignore_ascii_case_spec(c[j as int], l[i as int]));
                return true;
            }
            j = j + 1;
        }
        i = i + 1;
    }
    false
}

/// Whether `OnlyShowIn` and `NotShowIn` of `entry` let it show on the desktops `current`.
pub fn desktop_environment_allows(entry: &DesktopEntry, current: &Vec<String>) -> (r: bool)
    ensures
        r == environment_allows_spec(entry@, string_views(current@)),
{
    match entry.get("OnlyShowIn") {
        Some(value) => {
            let allowed = split_semicolon_list(value.as_str());
            if allowed.len() != 0 && !any_named(&allowed, current) {
                return false;
            }
        },
        None => {},
    }
    match entry.get("NotShowIn") {
        Some(value) => {
            let blocked = split_semicolon_list(value.as_str());
            if any_named(&blocked, current) {
                return false;
            }
        },
        None => {},
    }
    true
}

// ------------------------------------------------------------------
// Locales
// ------------------------------------------------------------------

/// A locale setting that names a language: not empty, `C` or `POSIX`.
pub open spec fn usable_locale(v: Seq<char>) -> bool {
    v.len() > 0 && v != "C"@ && v != "POSIX"@
}

/// The first usable of `LC_ALL`, `LC_MESSAGES` and `LANG`, or the empty string.
pub open spec fn locale_spec(
    lc_all: Option<Seq<char>>,
    lc_messages: Option<Seq<char>>,
    lang: Option<Seq<char>>,
) -> Seq<char> {
    if lc_all is Some && usable_locale(lc_all->0) {
        lc_all->0
    } else if lc_messages is Some && usable_locale(lc_messages->0) {
        lc_messages->0
    } else if lang is Some && usable_locale(lang->0) {
        lang->0
    } else {
        Seq::empty()
    }
}

fn usable(v: &Option<String>) -> (r: bool)
    ensures
        r == (v is Some && usable_locale(v->0@)),
{
    match v {
        Some(s) => {
            let c = chars_of(s.as_str());
            let c_name = chars_of("C");
            let posix = chars_of("POSIX");
            c.len() > 0 && !chars_equal(c.as_slice(), c_name.as_slice()) && !chars_equal(
                c.as_slice(),
                posix.as_slice(),
            )
        },
        None => false,
    }
}

/// The locale that localized keys are looked up for, from the values of `LC_ALL`,
/// `LC_MESSAGES` and `LANG`.
pub fn select_locale(
    lc_all: Option<String>,
    lc_messages: Option<String>,
    lang: Option<String>,
) -> (r: String)
    ensures
        r@ == locale_spec(
            match lc_all {
                Some(v) => Some(v@),
                None => None,
            },
            match lc_messages {
                Some(v) => Some(v@),
                None => None,
            },
            match lang {
                Some(v) => Some(v@),
                None => None,
            },
        ),
{
    if usable(&lc_all) {
        return lc_all.unwrap();
    }
    if usable(&lc_messages) {
        return lc_messages.unwrap();
    }
    if usable(&lang) {
        return lang.unwrap();
    }
    String::new()
}

/// The locale names tried for localized keys, in order: the locale itself, then its prefixes
/// before the first `@`, the first `.` and the first `_` (each where present).
pub open spec fn locale_candidates(locale: Seq<char>) -> Seq<Seq<char>> {
    if locale.len() == 0 {
        Seq::empty()
    } else {
        let at = match locale.index_of_first('@') {
            Some(p) => seq![locale.take(p)],
            None => Seq::empty(),
        };
        let dot = match locale.index_of_first('.') {
            Some(p) => seq![locale.take(p)],
            None => Seq::empty(),
        };
        let under = match locale.index_of_first('_') {
            Some(p) => seq![locale.take(p)],
            None => Seq::empty(),
        };
        seq![locale] + at + dot + under
    }
}

/// The key `base[locale]`.
pub open spec fn localized_key(base: Seq<char>, locale: Seq<char>) -> Seq<char> {
    base + seq!['['] + locale + seq![']']
}

/// The value for the first of `candidates` whose localized key has a non-empty value, else the
/// value of `base` itself.
pub open spec fn pick_localized(
    m: Map<Seq<char>, Seq<char>>,
    base: Seq<char>,
    candidates: Seq<Seq<char>>,
) -> Option<Seq<char>>
    decreases candidates.len(),
{
    if candidates.len() == 0 {
        lookup(m, base)
    } else {
        let key = localized_key(base, candidates[0]);
        if m.contains_key(key) && m[key].len() > 0 {
            Some(m[key])
        } else {
            pick_localized(m, base, candidates.drop_first())
        }
    }
}

/// The value of `base` for `locale`.
pub open spec fn localized_spec(
    m: Map<Seq<char>, Seq<char>>,
    base: Seq<char>,
    locale: Seq<char>,
) -> Option<Seq<char>> {
    pick_localized(m, base, locale_candidates(locale))
}

fn push_prefix_before(candidates: &mut Vec<Vec<char>>, locale: &[char], c: char)
    ensures
        char_views(final(candidates)@) == char_views(old(candidates)@) + match locale@
            .index_of_first(c) {
            Some(p) => seq![locale@.take(p)],
            None => Seq::<Seq<char>>::empty(),
        },
{
    let ghost before = char_views(candidates@);
    match find_char(locale, c) {
        Some(p) => {
            proof {
                locale@.index_of_first_ensures(c);
            }
            let prefix = slice_chars(locale, 0, p);
            assert(locale@.subrange(0, p as int) =~= locale@.take(p as int));
            candidates.push(prefix);
            assert(char_views(candidates@) =~= before + seq![locale@.take(p as int)]);
        },
        None => {
            assert(char_views(candidates@) =~= before + Seq::<Seq<char>>::empty());
        },
    }
}

/// The value of the key `base` localized for `locale`: `base[candidate]` for the first locale
/// candidate with a non-empty value, else `base` itself.
pub fn localized_value(entry: &DesktopEntry, base: &str, locale: &str) -> (r: Option<String>)
    ensures
        match r {
            Some(v) => localized_spec(entry@, base@, locale@) == Some(v@),
            None => localized_spec(entry@, base@, locale@) is None,
        },
{
    let loc = chars_of(locale);
    let b = chars_of(base);
    let mut candidates: Vec<Vec<char>> = Vec::new();
    if loc.len() > 0 {
        candidates.push(chars_of(locale));
        assert(char_views(candidates@) =~= seq![loc@]);
        push_prefix_before(&mut candidates, loc.as_slice(), '@');
        push_prefix_before(&mut candidates, loc.as_slice(), '.');
        push_prefix_before(&mut candidates, loc.as_slice(), '_');
    } else {
        assert(char_views(candidates@) =~= Seq::<Seq<char>>::empty());
    }
    let ghost cs = char_views(candidates@);
    assert(cs == locale_candidates(loc@));
    let mut i: usize = 0;
    assert(cs.skip(0) =~= cs);
    while i < candidates.len()
        invariant
            i <= candidates@.len(),
            cs == char_views(candidates@),
            cs == locale_candidates(locale@),
            b@ == base@,
            pick_localized(entry@, base@, cs) == pick_localized(entry@, base@, cs.skip(i as int)),
        decreases candidates@.len() - i,
    {
        let mut key: Vec<char> = b.clone();
        key.push('[');
        let mut k: usize = 0;
        let ghost start = key@;
        while k < candidates[i].len()
            invariant
                i < candidates@.len(),
                k <= candidates@[i as int]@.len(),
                key@ == start + candidates@[i as int]@.take(k as int),
            decreases candidates@[i as int]@.len() - k,
        {
            key.push(candidates[i][k]);
            k = k + 1;
            assert(key@ =~= start + candidates@[i as int]@.take(k as int));
        }
        key.push(']');
        assert(candidates@[i as int]@.take(k as int) =~= candidates@[i as int]@);
        assert(key@ =~= localized_key(base@, cs[i as int]));
        assert(cs.skip(i as int)[0] == cs[i as int]);
        assert(cs.skip(i as int).drop_first() =~= cs.skip(i + 1));
        match entry.get_chars(key.as_slice()) {
            Some(v) => {
                if !v.as_str().is_empty() {
                    let out = v.clone();
                    assert(out@ == v@);
                    assert(pick_localized(entry@, base@, cs.skip(i as int)) == Some(v@));
                    return Some(out);
                }
            },
            None => {},
        }
        i = i + 1;
    }
    assert(cs.skip(i as int) =~= Seq::<Seq<char>>::empty());
    match entry.get_chars(b.as_slice()) {
        Some(v) => Some(v.clone()),
        None => None,
    }
}

/// Whether `m` holds a non-empty value for `key`.
pub open spec fn has_text(m: Map<Seq<char>, Seq<char>>, key: Seq<char>) -> bool {
    m.contains_key(key) && m[key].len() > 0
}

proof fn lemma_pick_unlocalized(m: Map<Seq<char>, Seq<char>>, base: Seq<char>, cs: Seq<Seq<char>>)
    requires
        forall|x: Seq<char>| !has_text(m, #[trigger] localized_key(base, x)),
    ensures
        pick_localized(m, base, cs) == lookup(m, base),
    decreases cs.len(),
{
    if cs.len() > 0 {
        assert(!has_text(m, localized_key(base, cs[0])));
        lemma_pick_unlocalized(m, base, cs.drop_first());
    }
}

/// The most specific localized value wins. For a locale `ll_CC.ENC@MOD`: a non-empty
/// `base[ll_CC.ENC@MOD]` is returned before anything else; where it is missing or empty, a
/// non-empty `base[ll_CC.ENC]` (the part before `@`) comes next, then `base[ll_CC]` (the part
/// before `.`), and only then the language alone; where no localized key has a value, `base`
/// itself is read.
pub proof fn law_most_specific_locale_wins(
    m: Map<Seq<char>, Seq<char>>,
    base: Seq<char>,
    locale: Seq<char>,
)
    ensures
        locale.len() > 0 && has_text(m, localized_key(base, locale)) ==> localized_spec(
            m,
            base,
            locale,
        ) == Some(m[localized_key(base, locale)]),
        match locale.index_of_first('@') {
            Some(a) => !has_text(m, localized_key(base, locale)) && has_text(
                m,
                localized_key(base, locale.take(a)),
            ) ==> localized_spec(m, base, locale) == Some(m[localized_key(base, locale.take(a))]),
            None => true,
        },
        match locale.index_of_first('.') {
            Some(d) => !has_text(m, localized_key(base, locale)) && (match locale.index_of_first(
                '@',
            ) {
                Some(a) => !has_text(m, localized_key(base, locale.take(a))),
                None => true,
            }) && has_text(m, localized_key(base, locale.take(d))) ==> localized_spec(
                m,
                base,
                locale,
            ) == Some(m[localized_key(base, locale.take(d))]),
            None => true,
        },
        match locale.index_of_first('_') {
            Some(u) => !has_text(m, localized_key(base, locale)) && (match locale.index_of_first(
                '@',
            ) {
                Some(a) => !has_text(m, localized_key(base, locale.take(a))),
                None => true,
            }) && (match locale.index_of_first('.') {
                Some(d) => !has_text(m, localized_key(base, locale.take(d))),
                None => true,
            }) && has_text(m, localized_key(base, locale.take(u))) ==> localized_spec(
                m,
                base,
                locale,
            ) == Some(m[localized_key(base, locale.take(u))]),
            None => true,
        },
        (forall|x: Seq<char>| !has_text(m, #[trigger] localized_key(base, x))) ==> localized_spec(
            m,
            base,
            locale,
        ) == lookup(m, base),
{
    let cs = locale_candidates(locale);
    locale.index_of_first_ensures('@');
    locale.index_of_first_ensures('.');
    locale.index_of_first_ensures('_');
    if locale.len() > 0 {
        let at = match locale.index_of_first('@') {
            Some(p) => seq![locale.take(p)],
            None => Seq::<Seq<char>>::empty(),
        };
        let dot = match locale.index_of_first('.') {
            Some(p) => seq![locale.take(p)],
            None => Seq::<Seq<char>>::empty(),
        };
        let under = match locale.index_of_first('_') {
            Some(p) => seq![locale.take(p)],
            None => Seq::<Seq<char>>::empty(),
        };
        assert(cs == seq![locale] + at + dot + under);
        assert(cs[0] == locale);
        let rest = cs.drop_first();
        assert(rest =~= at + dot + under);
        if !has_text(m, localized_key(base, locale)) {
            assert(pick_localized(m, base, cs) == pick_localized(m, base, rest));
            let after_at = dot + under;
            if let Some(a) = locale.index_of_first('@') {
                assert(rest.len() > 0 && rest[0] == locale.take(a));
                if has_text(m, localized_key(base, locale.take(a))) {
                    assert(pick_localized(m, base, rest) == Some(
                        m[localized_key(base, locale.take(a))],
                    ));
                } else {
                    assert(rest.drop_first() =~= after_at);
                    assert(pick_localized(m, base, rest) == pick_localized(m, base, after_at));
                }
            } else {
                assert(rest =~= after_at);
            }
            if let Some(d) = locale.index_of_first('.') {
                assert(after_at.len() > 0 && after_at[0] == locale.take(d));
                if has_text(m, localized_key(base, locale.take(d))) {
                    assert(pick_localized(m, base, after_at) == Some(
                        m[localized_key(base, locale.take(d))],
                    ));
                } else {
                    assert(after_at.drop_first() =~= under);
                    assert(pick_localized(m, base, after_at) == pick_localized(m, base, under));
                }
            } else {
                assert(after_at =~= under);
            }
            if let Some(u) = locale.index_of_first('_') {
                assert(under.len() > 0 && under[0] == locale.take(u));
                if has_text(m, localized_key(base, locale.take(u))) {
                    assert(pick_localized(m, base, under) == Some(
                        m[localized_key(base, locale.take(u))],
                    ));
                }
            }
        }
    }
    if forall|x: Seq<char>| !has_text(m, #[trigger] localized_key(base, x)) {
        lemma_pick_unlocalized(m, base, cs);
    }
}

} // verus!
