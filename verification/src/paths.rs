use vstd::prelude::*;

use crate::text::{chars_of, push_string, split_spec, string_of, string_views};

verus! {

/// What `Path::join` gives for `base` and `rel` on Unix: an absolute `rel` (one that starts with
/// `/`) replaces `base`; otherwise `rel` follows `base`, with a `/` between them unless `base` is
/// empty or already ends in `/`.
pub open spec fn path_join_spec(base: Seq<char>, rel: Seq<char>) -> Seq<char> {
    if rel.len() > 0 && rel[0] == '/' {
        rel
    } else if base.len() > 0 && base.last() != '/' {
        base + seq!['/'] + rel
    } else {
        base + rel
    }
}

/// Whether `p` starts at the root (with `/`).
pub open spec fn is_rooted(p: Seq<char>) -> bool {
    p.len() > 0 && p[0] == '/'
}

/// Whether `Path::components` starts `p` with a current-directory item: `p` is not rooted and
/// starts with a `.` piece (`.` alone or followed by `/`).
pub open spec fn leads_with_cur_dir(p: Seq<char>) -> bool {
    !is_rooted(p) && p.len() > 0 && p[0] == '.' && (p.len() == 1 || p[1] == '/')
}

/// The named items of `p` (normal names and `..`), in order: its `/`-separated pieces that are
/// neither empty nor `.`; repeated and trailing separators and `.` pieces are normalized away.
pub open spec fn name_pieces(p: Seq<char>) -> Seq<Seq<char>> {
    split_spec(p, '/').filter(|s: Seq<char>| s.len() > 0 && s != seq!['.'])
}

/// Whether `Path`'s `==` holds of `a` and `b`: they have the same components, that is, both or
/// neither are rooted, both or neither start with `.`, and their named items agree.
pub open spec fn same_path_spec(a: Seq<char>, b: Seq<char>) -> bool {
    &&& is_rooted(a) == is_rooted(b)
    &&& leads_with_cur_dir(a) == leads_with_cur_dir(b)
    &&& name_pieces(a) == name_pieces(b)
}

/// The number of items that `Path::components` yields for `p`: the root, a leading `.`, and
/// each named item.
pub open spec fn component_count_spec(p: Seq<char>) -> nat {
    (if is_rooted(p) { 1nat } else { 0nat }) + (if leads_with_cur_dir(p) { 1nat } else { 0nat })
        + name_pieces(p).len()
}

/// The last position of `c` in `s`, or -1.
pub open spec fn last_index_of(s: Seq<char>, c: char) -> int
    decreases s.len(),
{
    if s.len() == 0 {
        -1
    } else if s.last() == c {
        s.len() - 1
    } else {
        last_index_of(s.drop_last(), c)
    }
}

/// What `Path::file_name` gives: the last component where it is a normal name; none where the
/// path has no named item or ends in `..`.
pub open spec fn file_name_spec(p: Seq<char>) -> Option<Seq<char>> {
    let names = name_pieces(p);
    if names.len() == 0 || names.last() == seq!['.', '.'] {
        None
    } else {
        Some(names.last())
    }
}

/// What `Path::extension` gives, as text: the part of the file name after its last `.`; none
/// where there is no file name, no `.` in it, or its only `.` is its first character.
pub open spec fn path_extension_spec(p: Seq<char>) -> Option<Seq<char>> {
    match file_name_spec(p) {
        None => None,
        Some(name) => {
            let dot = last_index_of(name, '.');
            if dot <= 0 {
                None
            } else {
                Some(name.skip(dot + 1))
            }
        },
    }
}

/// `rel` joined onto `base` as `Path::join` joins them on Unix.
fn join_path(base: &str, rel: &str) -> (r: String)
    ensures
        r@ == path_join_spec(base@, rel@),
{
    let b = chars_of(base);
    let tail = chars_of(rel);
    if tail.len() > 0 && tail[0] == '/' {
        return string_of(tail.as_slice());
    }
    let mut out = b;
    if out.len() > 0 && out[out.len() - 1] != '/' {
        out.push('/');
    }
    let ghost head = out@;
    assert(head == if base@.len() > 0 && base@.last() != '/' {
        base@ + seq!['/']
    } else {
        base@
    });
    let mut i: usize = 0;
    while i < tail.len()
        invariant
            i <= tail@.len(),
            out@ == head + tail@.take(i as int),
        decreases tail@.len() - i,
    {
        out.push(tail[i]);
        i = i + 1;
        assert(out@ =~= head + tail@.take(i as int));
    }
    assert(tail@.take(i as int) =~= rel@);
    string_of(out.as_slice())
}

/// Calls `Path`'s `eq`, which compares the two paths' components.
#[verifier::external_body]
pub(crate) fn same_path(a: &str, b: &str) -> (r: bool)
    ensures
        r == same_path_spec(a@, b@),
{
    std::path::Path::new(a) == std::path::Path::new(b)
}

/// Calls `Path::components` and counts the items.
#[verifier::external_body]
fn component_count(p: &str) -> (r: usize)
    ensures
        r == component_count_spec(p@),
{
    std::path::Path::new(p).components().count()
}

/// Calls `Path::extension`, taking the extension as text (lossless: the path is UTF-8).
#[verifier::external_body]
fn path_extension(p: &str) -> (r: Option<String>)
    ensures
        match r {
            Some(e) => path_extension_spec(p@) == Some(e@),
            None => path_extension_spec(p@) is None,
        },
{
    match std::path::Path::new(p).extension() {
        Some(e) => Some(e.to_string_lossy().into_owned()),
        None => None,
    }
}

/// Whether `path` names a desktop file: its extension is `desktop`.
pub fn is_desktop_file(path: &str) -> (r: bool)
    ensures
        r == (path_extension_spec(path@) == Some("desktop"@)),
{
    match path_extension(path) {
        Some(e) => {
            let a = crate::text::chars_of(e.as_str());
            let b = crate::text::chars_of("desktop");
            crate::text::chars_equal(a.as_slice(), b.as_slice())
        },
        None => false,
    }
}

/// The configuration file: `.config/raix/config.toml` under `HOME`, or under `.` where `HOME`
/// is not set.
pub open spec fn config_path_spec(home: Option<Seq<char>>) -> Seq<char> {
    let base = match home {
        Some(h) => h,
        None => "."@,
    };
    path_join_spec(path_join_spec(path_join_spec(base, ".config"@), "raix"@), "config.toml"@)
}

/// The path of the configuration file, given the value of `HOME`.
pub fn config_path(home: Option<String>) -> (r: String)
    ensures
        r@ == config_path_spec(
            match home {
                Some(h) => Some(h@),
                None => None,
            },
        ),
{
    let base = match home {
        Some(h) => h,
        None => String::from_str("."),
    };
    let a = join_path(base.as_str(), ".config");
    let b = join_path(a.as_str(), "raix");
    join_path(b.as_str(), "config.toml")
}

/// `paths` with every path dropped that equals (as a `Path`) one kept before it.
pub open spec fn dedup_paths(paths: Seq<Seq<char>>) -> Seq<Seq<char>>
    decreases paths.len(),
{
    if paths.len() == 0 {
        Seq::empty()
    } else {
        let prev = dedup_paths(paths.drop_last());
        if exists|k: int| 0 <= k < prev.len() && same_path_spec(#[trigger] prev[k], paths.last()) {
            prev
        } else {
            prev.push(paths.last())
        }
    }
}

/// The directories searched for desktop files, before duplicates are dropped: the user's
/// (`XDG_DATA_HOME/applications`, else `HOME/.local/share/applications`), then
/// `applications` under each of `XDG_DATA_DIRS` (or the two system directories where it is
/// not set), then the two system directories again.
pub open spec fn directory_candidates(
    data_home: Option<Seq<char>>,
    home: Option<Seq<char>>,
    data_dirs: Option<Seq<Seq<char>>>,
) -> Seq<Seq<char>> {
    let user = match data_home {
        Some(d) => seq![path_join_spec(d, "applications"@)],
        None => match home {
            Some(h) => seq![path_join_spec(h, ".local/share/applications"@)],
            None => Seq::empty(),
        },
    };
    let system = match data_dirs {
        Some(ds) => ds.map_values(|d: Seq<char>| path_join_spec(d, "applications"@)),
        None => seq!["/usr/local/share/applications"@, "/usr/share/applications"@],
    };
    user + system + seq!["/usr/local/share/applications"@, "/usr/share/applications"@]
}

/// `paths` without those equal (as a `Path`) to one kept before them.
pub fn distinct_paths(paths: &Vec<String>) -> (r: Vec<String>)
    ensures
        string_views(r@) == dedup_paths(string_views(paths@)),
{
    let ghost ps = string_views(paths@);
    let mut out: Vec<String> = Vec::new();
    let mut i: usize = 0;
    assert(ps.take(0) =~= Seq::<Seq<char>>::empty());
    assert(string_views(out@) =~= Seq::<Seq<char>>::empty());
    while i < paths.len()
        invariant
            i <= paths@.len(),
            ps == string_views(paths@),
            string_views(out@) == dedup_paths(ps.take(i as int)),
        decreases paths@.len() - i,
    {
        assert(ps.take(i + 1).drop_last() =~= ps.take(i as int));
        assert(ps.take(i + 1).last() == paths@[i as int]@);
        let ghost prev = string_views(out@);
        let ghost path = paths@[i as int]@;
        let mut found = false;
        let mut k: usize = 0;
        while k < out.len()
            invariant
                k <= out@.len(),
                i < paths@.len(),
                prev == string_views(out@),
                path == paths@[i as int]@,
                found == exists|j: int| 0 <= j < k && same_path_spec(#[trigger] prev[j], path),
            decreases out@.len() - k,
        {
            let same = same_path(out[k].as_str(), paths[i].as_str());
            assert(prev[k as int] == out@[k as int]@);
            if same {
                found = true;
            }
            k = k + 1;
            assert(found == exists|j: int| 0 <= j < k && same_path_spec(#[trigger] prev[j], path)) by {
                if found {
                    if !same {
                        let j0 = choose|j: int|
                            0 <= j < k - 1 && same_path_spec(#[trigger] prev[j], path);
                        assert(0 <= j0 < k);
                    }
                } else {
                    assert forall|j: int| 0 <= j < k implies !same_path_spec(
                        #[trigger] prev[j],
                        path,
                    ) by {
                        if j < k - 1 {
                        }
                    }
                }
            }
        }
        if !found {
            push_string(&mut out, paths[i].clone());
        }
        i = i + 1;
    }
    assert(ps.take(paths@.len() as int) =~= ps);
    out
}

/// The directories searched for desktop files, each once, given the values of `XDG_DATA_HOME`,
/// `HOME` and the entries of `XDG_DATA_DIRS`.
pub fn application_directories(
    data_home: Option<String>,
    home: Option<String>,
    data_dirs: Option<Vec<String>>,
) -> (r: Vec<String>)
    ensures
        string_views(r@) == dedup_paths(
            directory_candidates(
                match data_home {
                    Some(d) => Some(d@),
                    None => None,
                },
                match home {
                    Some(h) => Some(h@),
                    None => None,
                },
                match data_dirs {
                    Some(ds) => Some(string_views(ds@)),
                    None => None,
                },
            ),
        ),
{
    let ghost dh = match &data_home {
        Some(d) => Some(d@),
        None => None,
    };
    let ghost hm = match &home {
        Some(h) => Some(h@),
        None => None,
    };
    let ghost dd = match &data_dirs {
        Some(ds) => Some(string_views(ds@)),
        None => None,
    };
    let mut all: Vec<String> = Vec::new();
    assert(string_views(all@) =~= Seq::<Seq<char>>::empty());
    let ghost user: Seq<Seq<char>>;
    match &data_home {
        Some(d) => {
            push_string(&mut all, join_path(d.as_str(), "applications"));
        },
        None => match &home {
            Some(h) => {
                push_string(&mut all, join_path(h.as_str(), ".local/share/applications"));
            },
            None => {},
        },
    }
    proof {
        user = string_views(all@);
        assert(user =~= match dh {
            Some(d) => seq![path_join_spec(d, "applications"@)],
            None => match hm {
                Some(h) => seq![path_join_spec(h, ".local/share/applications"@)],
                None => Seq::empty(),
            },
        });
    }
    match &data_dirs {
        Some(ds) => {
            let mut i: usize = 0;
            while i < ds.len()
                invariant
                    i <= ds@.len(),
                    string_views(all@) == user + string_views(ds@).take(i as int).map_values(
                        |d: Seq<char>| path_join_spec(d, "applications"@),
                    ),
                decreases ds@.len() - i,
            {
                let ghost before = string_views(all@);
                push_string(&mut all, join_path(ds[i].as_str(), "applications"));
                i = i + 1;
                assert(string_views(all@) =~= user + string_views(ds@).take(i as int).map_values(
                    |d: Seq<char>| path_join_spec(d, "applications"@),
                ));
            }
            assert(string_views(ds@).take(i as int) =~= string_views(ds@));
        },
        None => {
            push_string(&mut all, String::from_str("/usr/local/share/applications"));
            push_string(&mut all, String::from_str("/usr/share/applications"));
            assert(string_views(all@) =~= user + seq![
                "/usr/local/share/applications"@,
                "/usr/share/applications"@,
            ]);
        },
    }
    let ghost mid = string_views(all@);
    push_string(&mut all, String::from_str("/usr/local/share/applications"));
    push_string(&mut all, String::from_str("/usr/share/applications"));
    assert(string_views(all@) =~= mid + seq![
        "/usr/local/share/applications"@,
        "/usr/share/applications"@,
    ]);
    assert(string_views(all@) == directory_candidates(dh, hm, dd));
    distinct_paths(&all)
}

/// The files that make `command` available: the command itself where it is a path of more
/// than one component; else `command` under each directory of `PATH` (none where `PATH` is not
/// set).
pub open spec fn command_candidates_spec(
    command: Seq<char>,
    search_dirs: Option<Seq<Seq<char>>>,
) -> Seq<Seq<char>> {
    if component_count_spec(command) > 1 {
        seq![command]
    } else {
        match search_dirs {
            Some(ds) => ds.map_values(|d: Seq<char>| path_join_spec(d, command)),
            None => Seq::empty(),
        }
    }
}

/// The files whose existence makes `command` available, given the entries of `PATH`.
pub fn command_candidates(command: &str, search_dirs: Option<Vec<String>>) -> (r: Vec<String>)
    ensures
        string_views(r@) == command_candidates_spec(
            command@,
            match search_dirs {
                Some(ds) => Some(string_views(ds@)),
                None => None,
            },
        ),
{
    let mut out: Vec<String> = Vec::new();
    assert(string_views(out@) =~= Seq::<Seq<char>>::empty());
    if component_count(command) > 1 {
        push_string(&mut out, command.to_owned());
        assert(string_views(out@) =~= seq![command@]);
        return out;
    }
    match &search_dirs {
        Some(ds) => {
            let mut i: usize = 0;
            while i < ds.len()
                invariant
                    i <= ds@.len(),
                    string_views(out@) == string_views(ds@).take(i as int).map_values(
                        |d: Seq<char>| path_join_spec(d, command@),
                    ),
                decreases ds@.len() - i,
            {
                push_string(&mut out, join_path(ds[i].as_str(), command));
                i = i + 1;
                assert(string_views(out@) =~= string_views(ds@).take(i as int).map_values(
                    |d: Seq<char>| path_join_spec(d, command@),
                ));
            }
            assert(string_views(ds@).take(i as int) =~= string_views(ds@));
        },
        None => {},
    }
    out
}


/// No directory is searched twice: no kept path equals (as a `Path`) a path kept before it.
pub proof fn lemma_directories_distinct(paths: Seq<Seq<char>>)
    ensures
        forall|k: int, l: int|
            0 <= k < l < dedup_paths(paths).len() ==> !same_path_spec(
                #[trigger] dedup_paths(paths)[k],
                #[trigger] dedup_paths(paths)[l],
            ),
    decreases paths.len(),
{
    if paths.len() > 0 {
        lemma_directories_distinct(paths.drop_last());
        let prev = dedup_paths(paths.drop_last());
        let d = dedup_paths(paths);
        assert forall|k: int, l: int| 0 <= k < l < d.len() implies !same_path_spec(
            #[trigger] d[k],
            #[trigger] d[l],
        ) by {
            if l < prev.len() {
                assert(d[k] == prev[k] && d[l] == prev[l]);
            } else {
                assert(d[k] == prev[k]);
            }
        }
    }
}

} // verus!
