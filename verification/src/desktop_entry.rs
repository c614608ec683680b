use vstd::prelude::*;

use crate::text::{
    char_views, chars_equal, chars_of, find_char, split_on, split_spec, string_of, trim, trim_spec,
};

verus! {

// ------------------------------------------------------------------
// The key-value map of a `[Desktop Entry]` group
// ------------------------------------------------------------------

/// The map that inserting `pairs` in order into an empty map gives: a later key wins.
pub open spec fn entries_map(pairs: Seq<(Vec<char>, String)>) -> Map<Seq<char>, Seq<char>>
    decreases pairs.len(),
{
    if pairs.len() == 0 {
        Map::empty()
    } else {
        entries_map(pairs.drop_last()).insert(pairs.last().0@, pairs.last().1@)
    }
}

/// The keys and values of the `[Desktop Entry]` group of a desktop file.
pub struct DesktopEntry {
    pairs: Vec<(Vec<char>, String)>,
}

proof fn lemma_entries_lookup(pairs: Seq<(Vec<char>, String)>, key: Seq<char>, j: int)
    requires
        0 <= j <= pairs.len(),
        forall|l: int| j <= l < pairs.len() ==> (#[trigger] pairs[l]).0@ != key,
    ensures
        j == 0 ==> !entries_map(pairs).contains_key(key),
        j > 0 && pairs[j - 1].0@ == key ==> entries_map(pairs).contains_key(key) && entries_map(
            pairs,
        )[key] == pairs[j - 1].1@,
        j > 0 ==> entries_map(pairs).contains_key(key) == entries_map(pairs.take(j)).contains_key(
            key,
        ),
        j > 0 && entries_map(pairs).contains_key(key) ==> entries_map(pairs)[key] == entries_map(
            pairs.take(j),
        )[key],
    decreases pairs.len(),
{
    if pairs.len() == 0 {
    } else if j == pairs.len() {
        assert(pairs.take(j) =~= pairs);
    } else {
        let p = pairs.drop_last();
        assert forall|l: int| j <= l < p.len() implies (#[trigger] p[l]).0@ != key by {
            assert(p[l] == pairs[l]);
        }
        lemma_entries_lookup(p, key, j);
        assert(p.take(j) =~= pairs.take(j));
        if j > 0 {
            assert(p[j - 1] == pairs[j - 1]);
        }
    }
}

impl View for DesktopEntry {
    type V = Map<Seq<char>, Seq<char>>;

    closed spec fn view(&self) -> Map<Seq<char>, Seq<char>> {
        entries_map(self.pairs@)
    }
}

impl DesktopEntry {
    /// An entry with no keys.
    pub fn new() -> (r: DesktopEntry)
        ensures
            r@ == Map::<Seq<char>, Seq<char>>::empty(),
    {
        DesktopEntry { pairs: Vec::new() }
    }

    /// Sets `key` to `value`, replacing an earlier value of `key`.
    pub fn insert(&mut self, key: String, value: String)
        ensures
            final(self)@ == old(self)@.insert(key@, value@),
    {
        let k = chars_of(key.as_str());
        let ghost before = self.pairs@;
        self.pairs.push((k, value));
        assert(self.pairs@.drop_last() =~= before);
    }

    fn insert_chars(&mut self, key: Vec<char>, value: String)
        ensures
            final(self)@ == old(self)@.insert(key@, value@),
    {
        let ghost before = self.pairs@;
        self.pairs.push((key, value));
        assert(self.pairs@.drop_last() =~= before);
    }

    /// Whether the entry holds no key.
    pub fn is_empty(&self) -> (r: bool)
        ensures
            r == (self@ == Map::<Seq<char>, Seq<char>>::empty()),
    {
        proof {
            if self.pairs@.len() > 0 {
                assert(self@.contains_key(self.pairs@.last().0@));
            } else {
                assert(self@ =~= Map::<Seq<char>, Seq<char>>::empty());
            }
        }
        self.pairs.len() == 0
    }

    /// The value of the key whose characters are `key`.
    pub fn get_chars(&self, key: &[char]) -> (r: Option<&String>)
        ensures
            match r {
                Some(v) => self@.contains_key(key@) && self@[key@] == v@,
                None => !self@.contains_key(key@),
            },
    {
        let mut j: usize = self.pairs.len();
        while j > 0
            invariant
                j <= self.pairs@.len(),
                forall|l: int|
                    j <= l < self.pairs@.len() ==> (#[trigger] self.pairs@[l]).0@ != key@,
            decreases j,
        {
            if chars_equal(self.pairs[j - 1].0.as_slice(), key) {
                proof {
                    lemma_entries_lookup(self.pairs@, key@, j as int);
                }
                return Some(&self.pairs[j - 1].1);
            }
            j = j - 1;
        }
        proof {
            lemma_entries_lookup(self.pairs@, key@, 0);
        }
        None
    }

    /// The value of `key`.
    pub fn get(&self, key: &str) -> (r: Option<&String>)
        ensures
            match r {
                Some(v) => self@.contains_key(key@) && self@[key@] == v@,
                None => !self@.contains_key(key@),
            },
    {
        let k = chars_of(key);
        self.get_chars(k.as_slice())
    }
}

/// The value of `key` in `m`, if any.
pub open spec fn lookup(m: Map<Seq<char>, Seq<char>>, key: Seq<char>) -> Option<Seq<char>> {
    if m.contains_key(key) {
        Some(m[key])
    } else {
        None
    }
}

/// Reading a key of an entry gives back what was last written to it; writing a key leaves the
/// other keys as they were.
pub proof fn lemma_entry_read_after_write(
    m: Map<Seq<char>, Seq<char>>,
    key: Seq<char>,
    value: Seq<char>,
    other: Seq<char>,
)
    ensures
        lookup(m.insert(key, value), key) == Some(value),
        other != key ==> lookup(m.insert(key, value), other) == lookup(m, other),
{
}

// ------------------------------------------------------------------
// Values
// ------------------------------------------------------------------

/// Where unescaping stands: the output so far, and whether a backslash waits for its partner.
pub struct UnescapeState {
    pub out: Seq<char>,
    pub pending: bool,
}

/// One character of a value: `\s`, `\n`, `\t`, `\r` and `\\` become the character they name; a
/// backslash before any other character is kept with it.
pub open spec fn unescape_step(st: UnescapeState, c: char) -> UnescapeState {
    if st.pending {
        UnescapeState {
            out: if c == 's' {
                st.out.push(' ')
            } else if c == 'n' {
                st.out.push('\n')
            } else if c == 't' {
                st.out.push('\t')
            } else if c == 'r' {
                st.out.push('\r')
            } else if c == '\\' {
                st.out.push('\\')
            } else {
                st.out.push('\\').push(c)
            },
            pending: false,
        }
    } else if c == '\\' {
        UnescapeState { out: st.out, pending: true }
    } else {
        UnescapeState { out: st.out.push(c), pending: false }
    }
}

/// Unescaping after all characters of `s`.
pub open spec fn unescape_run(s: Seq<char>) -> UnescapeState
    decreases s.len(),
{
    if s.len() == 0 {
        UnescapeState { out: Seq::empty(), pending: false }
    } else {
        unescape_step(unescape_run(s.drop_last()), s.last())
    }
}

/// The unescaped form of a value; a final lone backslash is kept.
pub open spec fn unescape_spec(s: Seq<char>) -> Seq<char> {
    let st = unescape_run(s);
    if st.pending {
        st.out.push('\\')
    } else {
        st.out
    }
}

/// A value without backslashes is its own unescaped form.
pub proof fn lemma_unescape_plain(s: Seq<char>)
    requires
        !s.contains('\\'),
    ensures
        unescape_spec(s) == s,
{
    lemma_unescape_run_plain(s);
}

proof fn lemma_unescape_run_plain(s: Seq<char>)
    requires
        !s.contains('\\'),
    ensures
        unescape_run(s) == (UnescapeState { out: s, pending: false }),
    decreases s.len(),
{
    if s.len() > 0 {
        assert(!s.drop_last().contains('\\')) by {
            if s.drop_last().contains('\\') {
                let k = choose|k: int| 0 <= k < s.drop_last().len() && s.drop_last()[k] == '\\';
                assert(s[k] == '\\');
            }
        }
        lemma_unescape_run_plain(s.drop_last());
        assert(s.last() != '\\') by {
            if s.last() == '\\' {
                assert(s[s.len() - 1] == '\\');
            }
        }
        assert(s.drop_last().push(s.last()) =~= s);
        assert(unescape_run(s).out =~= s);
    } else {
        assert(s =~= Seq::<char>::empty());
    }
}

fn unescape_chars(s: &[char]) -> (r: Vec<char>)
    ensures
        r@ == unescape_spec(s@),
{
    let mut out: Vec<char> = Vec::new();
    let mut pending = false;
    let mut i: usize = 0;
    assert(s@.take(0) =~= Seq::<char>::empty());
    while i < s.len()
        invariant
            i <= s@.len(),
            out@ == unescape_run(s@.take(i as int)).out,
            pending == unescape_run(s@.take(i as int)).pending,
        decreases s@.len() - i,
    {
        let c = s[i];
        assert(s@.take(i + 1).drop_last() =~= s@.take(i as int));
        if pending {
            if c == 's' {
                out.push(' ');
            } else if c == 'n' {
                out.push('\n');
            } else if c == 't' {
                out.push('\t');
            } else if c == 'r' {
                out.push('\r');
            } else if c == '\\' {
                out.push('\\');
            } else {
                out.push('\\');
                out.push(c);
            }
            pending = false;
        } else if c == '\\' {
            pending = true;
        } else {
            out.push(c);
        }
        i = i + 1;
    }
    assert(s@.take(s@.len() as int) =~= s@);
    if pending {
        out.push('\\');
    }
    out
}

/// Resolves the escape sequences of a desktop-file value.
pub fn unescape_desktop_value(value: &str) -> (r: String)
    ensures
        r@ == unescape_spec(value@),
{
    let s = chars_of(value);
    let out = unescape_chars(s.as_slice());
    string_of(out.as_slice())
}

// ------------------------------------------------------------------
// Lines
// ------------------------------------------------------------------

/// The key and raw value of a `key=value` line: the key is the trimmed text before the first `=`
/// and must not be empty; the value is everything after it.
pub open spec fn key_value_spec(line: Seq<char>) -> Option<(Seq<char>, Seq<char>)> {
    match line.index_of_first('=') {
        Some(p) => {
            let key = trim_spec(line.take(p));
            if key.len() == 0 {
                None
            } else {
                Some((key, line.skip(p + 1)))
            }
        },
        None => None,
    }
}

fn key_value_chars(line: &[char]) -> (r: Option<(Vec<char>, Vec<char>)>)
    ensures
        match r {
            Some((k, v)) => key_value_spec(line@) == Some((k@, v@)),
            None => key_value_spec(line@) is None,
        },
{
    let position = match find_char(line, '=') {
        Some(p) => p,
        None => return None,
    };
    proof {
        line@.index_of_first_ensures('=');
    }
    let n = line.len();
    assert(position < n);
    let before = crate::text::slice_chars(line, 0, position);
    let key = trim(before.as_slice());
    if key.len() == 0 {
        return None;
    }
    let value = crate::text::slice_chars(line, position + 1, n);
    assert(line@.subrange(0, position as int) =~= line@.take(position as int));
    assert(line@.subrange(position + 1, line@.len() as int) =~= line@.skip(position + 1));
    Some((key, value))
}

/// Splits a `key=value` line at its first `=`.
pub fn split_key_value(line: &str) -> (r: Option<(String, String)>)
    ensures
        match r {
            Some((k, v)) => key_value_spec(line@) == Some((k@, v@)),
            None => key_value_spec(line@) is None,
        },
{
    let s = chars_of(line);
    match key_value_chars(s.as_slice()) {
        Some((k, v)) => Some((string_of(k.as_slice()), string_of(v.as_slice()))),
        None => None,
    }
}

/// Where reading a desktop file stands.
pub struct ParseState {
    /// Inside the `[Desktop Entry]` group.
    pub in_group: bool,
    /// A later group has begun after `[Desktop Entry]`: nothing more is read.
    pub done: bool,
    /// The keys read so far.
    pub map: Map<Seq<char>, Seq<char>>,
}

/// One line of a desktop file, trimmed: blank lines and comments are skipped;
/// `[Desktop Entry]` opens the group; another group header ends it (or is skipped before it);
/// inside the group, each `key=value` line sets `key` to the unescaped value.
pub open spec fn parse_step(st: ParseState, raw: Seq<char>) -> ParseState {
    let line = trim_spec(raw);
    if st.done {
        st
    } else if line.len() == 0 || line[0] == '#' {
        st
    } else if line == "[Desktop Entry]"@ {
        ParseState { in_group: true, ..st }
    } else if line[0] == '[' {
        if st.in_group {
            ParseState { done: true, ..st }
        } else {
            st
        }
    } else if !st.in_group {
        st
    } else {
        match key_value_spec(line) {
            Some((k, v)) => ParseState { map: st.map.insert(k, unescape_spec(v)), ..st },
            None => st,
        }
    }
}

/// Reading after all of `lines`.
pub open spec fn parse_run(lines: Seq<Seq<char>>) -> ParseState
    decreases lines.len(),
{
    if lines.len() == 0 {
        ParseState { in_group: false, done: false, map: Map::empty() }
    } else {
        parse_step(parse_run(lines.drop_last()), lines.last())
    }
}

/// The keys of the `[Desktop Entry]` group of `data`, whose lines end at `\n`; `None` where the
/// group holds no key.
pub open spec fn parse_desktop_spec(data: Seq<char>) -> Option<Map<Seq<char>, Seq<char>>> {
    let m = parse_run(split_spec(data, '\n')).map;
    if m == Map::<Seq<char>, Seq<char>>::empty() {
        None
    } else {
        Some(m)
    }
}

/// Reads the `[Desktop Entry]` group of a desktop file.
pub fn parse_desktop_entry(data: &str) -> (r: Option<DesktopEntry>)
    ensures
        match r {
            Some(e) => parse_desktop_spec(data@) == Some(e@),
            None => parse_desktop_spec(data@) is None,
        },
{
    let chars = chars_of(data);
    let lines = split_on(chars.as_slice(), '\n');
    let header = chars_of("[Desktop Entry]");
    let mut entry = DesktopEntry::new();
    let mut in_group = false;
    let mut done = false;
    let mut i: usize = 0;
    let ghost ls = char_views(lines@);
    assert(ls.take(0) =~= Seq::<Seq<char>>::empty());
    while i < lines.len()
        invariant
            i <= lines@.len(),
            ls == char_views(lines@),
            header@ == "[Desktop Entry]"@,
            ({
                let st = parse_run(ls.take(i as int));
                &&& in_group == st.in_group
                &&& done == st.done
                &&& entry@ == st.map
            }),
        decreases lines@.len() - i,
    {
        assert(ls.take(i + 1).drop_last() =~= ls.take(i as int));
        assert(ls.take(i + 1).last() == lines@[i as int]@);
        if !done {
            let line = trim(lines[i].as_slice());
            if line.len() == 0 || line[0] == '#' {
            } else if chars_equal(line.as_slice(), header.as_slice()) {
                in_group = true;
            } else if line[0] == '[' {
                if in_group {
                    done = true;
                }
            } else if !in_group {
            } else {
                match key_value_chars(line.as_slice()) {
                    Some((k, v)) => {
                        let value = unescape_chars(v.as_slice());
                        entry.insert_chars(k, string_of(value.as_slice()));
                    },
                    None => {},
                }
            }
        }
        i = i + 1;
    }
    assert(ls.take(lines@.len() as int) =~= ls);
    assert(ls == split_spec(data@, '\n'));
    if entry.is_empty() {
        None
    } else {
        Some(entry)
    }
}

} // verus!
