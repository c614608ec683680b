use vstd::prelude::*;

verus! {

// ------------------------------------------------------------------
// Conversions between strings and character vectors
// ------------------------------------------------------------------

/// The characters of `s`, in order.
pub fn chars_of(s: &str) -> (r: Vec<char>)
    ensures
        r@ == s@,
{
    let mut out: Vec<char> = Vec::new();
    for c in it: s.chars()
        invariant
            out@ == it.seq().take(it.index() as int),
            it.seq() == s@,
    {
        out.push(c);
    }
    out
}

/// Calls `String::from_iter` over characters: the string made of `v`'s characters in order.
#[verifier::external_body]
pub(crate) fn string_of(v: &[char]) -> (r: String)
    ensures
        r@ == v@,
{
    v.iter().collect::<String>()
}

// ------------------------------------------------------------------
// Whitespace and trimming
// ------------------------------------------------------------------

/// The Unicode `White_Space` property, which `char::is_whitespace` and `str::trim` use.
pub open spec fn is_white_space(c: char) -> bool {
    let n = c as u32;
    ||| 0x09 <= n <= 0x0d
    ||| n == 0x20
    ||| n == 0x85
    ||| n == 0xa0
    ||| n == 0x1680
    ||| 0x2000 <= n <= 0x200a
    ||| n == 0x2028
    ||| n == 0x2029
    ||| n == 0x202f
    ||| n == 0x205f
    ||| n == 0x3000
}

/// Whether `c` is Unicode white space.
pub fn is_whitespace(c: char) -> (r: bool)
    ensures
        r == is_white_space(c),
{
    let n = c as u32;
    (0x09 <= n && n <= 0x0d) || n == 0x20 || n == 0x85 || n == 0xa0 || n == 0x1680 || (0x2000
        <= n && n <= 0x200a) || n == 0x2028 || n == 0x2029 || n == 0x202f || n == 0x205f || n
        == 0x3000
}

/// `s` without its leading white space.
pub open spec fn trim_start_spec(s: Seq<char>) -> Seq<char>
    decreases s.len(),
{
    if s.len() > 0 && is_white_space(s[0]) {
        trim_start_spec(s.drop_first())
    } else {
        s
    }
}

/// `s` without its trailing white space.
pub open spec fn trim_end_spec(s: Seq<char>) -> Seq<char>
    decreases s.len(),
{
    if s.len() > 0 && is_white_space(s.last()) {
        trim_end_spec(s.drop_last())
    } else {
        s
    }
}

/// `s` without leading and trailing white space, as `str::trim` gives it.
pub open spec fn trim_spec(s: Seq<char>) -> Seq<char> {
    trim_end_spec(trim_start_spec(s))
}

proof fn lemma_trim_start_skip(s: Seq<char>, k: int)
    requires
        0 <= k <= s.len(),
        forall|j: int| 0 <= j < k ==> is_white_space(#[trigger] s[j]),
        k == s.len() || !is_white_space(s[k]),
    ensures
        trim_start_spec(s) == s.skip(k),
    decreases k,
{
    if k == 0 {
        assert(s.skip(0) =~= s);
    } else {
        let t = s.drop_first();
        assert forall|j: int| 0 <= j < k - 1 implies is_white_space(#[trigger] t[j]) by {
            assert(t[j] == s[j + 1]);
        }
        lemma_trim_start_skip(t, k - 1);
        assert(t.skip(k - 1) =~= s.skip(k));
    }
}

proof fn lemma_trim_end_take(s: Seq<char>, k: int)
    requires
        0 <= k <= s.len(),
        forall|j: int| k <= j < s.len() ==> is_white_space(#[trigger] s[j]),
        k == 0 || !is_white_space(s[k - 1]),
    ensures
        trim_end_spec(s) == s.take(k),
    decreases s.len() - k,
{
    if k == s.len() {
        assert(s.take(k) =~= s);
    } else {
        let t = s.drop_last();
        assert forall|j: int| k <= j < t.len() implies is_white_space(#[trigger] t[j]) by {
            assert(t[j] == s[j]);
        }
        lemma_trim_end_take(t, k);
        assert(t.take(k) =~= s.take(k));
    }
}

proof fn lemma_trim_start_shape(s: Seq<char>)
    ensures
        trim_start_spec(s).len() == 0 || !is_white_space(trim_start_spec(s)[0]),
    decreases s.len(),
{
    if s.len() > 0 && is_white_space(s[0]) {
        lemma_trim_start_shape(s.drop_first());
    }
}

proof fn lemma_trim_end_shape(s: Seq<char>)
    ensures
        trim_end_spec(s).len() <= s.len(),
        trim_end_spec(s) == s.take(trim_end_spec(s).len() as int),
        trim_end_spec(s).len() == 0 || !is_white_space(trim_end_spec(s).last()),
    decreases s.len(),
{
    if s.len() > 0 && is_white_space(s.last()) {
        lemma_trim_end_shape(s.drop_last());
        assert(s.drop_last().take(trim_end_spec(s).len() as int) =~= s.take(
            trim_end_spec(s).len() as int,
        ));
    } else {
        assert(s.take(s.len() as int) =~= s);
    }
}

/// Trimming a trimmed text changes nothing.
pub proof fn lemma_trim_idempotent(s: Seq<char>)
    ensures
        trim_spec(trim_spec(s)) == trim_spec(s),
{
    let t = trim_start_spec(s);
    let u = trim_end_spec(t);
    lemma_trim_start_shape(s);
    lemma_trim_end_shape(t);
    if u.len() > 0 {
        assert(u[0] == t[0]);
        assert(trim_start_spec(u) == u);
        assert(trim_end_spec(u) == u);
    } else {
        assert(trim_start_spec(u) == u);
    }
}

/// The characters of `s[from..to]`.
pub fn slice_chars(s: &[char], from: usize, to: usize) -> (r: Vec<char>)
    requires
        from <= to <= s@.len(),
    ensures
        r@ == s@.subrange(from as int, to as int),
{
    let mut out: Vec<char> = Vec::new();
    let mut i = from;
    while i < to
        invariant
            from <= i <= to <= s@.len(),
            out@ == s@.subrange(from as int, i as int),
        decreases to - i,
    {
        out.push(s[i]);
        i = i + 1;
        assert(out@ =~= s@.subrange(from as int, i as int));
    }
    out
}

/// `s` without leading and trailing white space.
pub fn trim(s: &[char]) -> (r: Vec<char>)
    ensures
        r@ == trim_spec(s@),
{
    let n = s.len();
    let mut start: usize = 0;
    while start < n && is_whitespace(s[start])
        invariant
            start <= n == s@.len(),
            forall|j: int| 0 <= j < start ==> is_white_space(#[trigger] s@[j]),
        decreases n - start,
    {
        start = start + 1;
    }
    proof {
        lemma_trim_start_skip(s@, start as int);
    }
    let ghost t = s@.skip(start as int);
    let mut end: usize = n;
    while end > start && is_whitespace(s[end - 1])
        invariant
            start <= end <= n == s@.len(),
            forall|j: int| end <= j < n ==> is_white_space(#[trigger] s@[j]),
        decreases end,
    {
        end = end - 1;
    }
    proof {
        assert forall|j: int| end - start <= j < t.len() implies is_white_space(
            #[trigger] t[j],
        ) by {
            assert(t[j] == s@[j + start]);
        }
        if end > start {
            assert(t[end - start - 1] == s@[end - 1]);
        }
        lemma_trim_end_take(t, end - start);
        assert(t.take(end - start) =~= s@.subrange(start as int, end as int));
    }
    slice_chars(s, start, end)
}


// ------------------------------------------------------------------
// Comparisons
// ------------------------------------------------------------------

/// Whether `a` and `b` hold the same characters.
pub fn chars_equal(a: &[char], b: &[char]) -> (r: bool)
    ensures
        r == (a@ == b@),
{
    if a.len() != b.len() {
        return false;
    }
    let mut i: usize = 0;
    while i < a.len()
        invariant
            i <= a@.len() == b@.len(),
            forall|j: int| 0 <= j < i ==> a@[j] == b@[j],
        decreases a@.len() - i,
    {
        if a[i] != b[i] {
            return false;
        }
        i = i + 1;
    }
    assert(a@ =~= b@);
    true
}

/// The code of `c` with ASCII upper-case letters mapped to lower case.
pub open spec fn ascii_lower_code(c: char) -> u32 {
    if 0x41 <= (c as u32) <= 0x5a {
        (c as u32 + 32) as u32
    } else {
        c as u32
    }
}

/// What `str::eq_ignore_ascii_case` decides: the same characters, up to ASCII case.
pub open spec fn eq_ignore_ascii_case_spec(a: Seq<char>, b: Seq<char>) -> bool {
    &&& a.len() == b.len()
    &&& forall|i: int|
        0 <= i < a.len() ==> ascii_lower_code(#[trigger] a[i]) == ascii_lower_code(b[i])
}

fn lower_code(c: char) -> (r: u32)
    ensures
        r == ascii_lower_code(c),
{
    let n = c as u32;
    if 0x41 <= n && n <= 0x5a {
        n + 32
    } else {
        n
    }
}

/// Whether `a` and `b` are equal up to ASCII case.
pub fn eq_ignore_ascii_case(a: &[char], b: &[char]) -> (r: bool)
    ensures
        r == eq_ignore_ascii_case_spec(a@, b@),
{
    if a.len() != b.len() {
        return false;
    }
    let mut i: usize = 0;
    while i < a.len()
        invariant
            i <= a@.len() == b@.len(),
            forall|j: int|
                0 <= j < i ==> ascii_lower_code(#[trigger] a@[j]) == ascii_lower_code(b@[j]),
        decreases a@.len() - i,
    {
        if lower_code(a[i]) != lower_code(b[i]) {
            return false;
        }
        i = i + 1;
    }
    true
}

/// Whether `pat` occurs in `s` at position `i`.
pub open spec fn occurs_at(s: Seq<char>, pat: Seq<char>, i: int) -> bool {
    0 <= i && i + pat.len() <= s.len() && s.subrange(i, i + pat.len()) == pat
}

/// Whether `pat` occurs in `s`.
pub open spec fn contains_spec(s: Seq<char>, pat: Seq<char>) -> bool {
    exists|i: int| occurs_at(s, pat, i)
}

/// Whether `pat` occurs in `s` at position `i`.
pub fn matches_at(s: &[char], pat: &[char], i: usize) -> (r: bool)
    requires
        i <= s@.len(),
    ensures
        r == occurs_at(s@, pat@, i as int),
{
    if pat.len() > s.len() - i {
        return false;
    }
    let mut k: usize = 0;
    while k < pat.len()
        invariant
            i + pat@.len() <= s@.len(),
            s@.len() == s.len(),
            k <= pat@.len(),
            forall|j: int| 0 <= j < k ==> s@[i + j] == pat@[j],
        decreases pat@.len() - k,
    {
        if s[i + k] != pat[k] {
            assert(s@.subrange(i as int, i + pat@.len())[k as int] != pat@[k as int]);
            return false;
        }
        k = k + 1;
    }
    assert(s@.subrange(i as int, i + pat@.len()) =~= pat@);
    true
}

/// The first position at or after `i` at which `pat` occurs in `s`.
pub open spec fn find_from(s: Seq<char>, pat: Seq<char>, i: int) -> Option<int>
    decreases s.len() + 1 - i,
{
    if i < 0 || i > s.len() {
        None
    } else if occurs_at(s, pat, i) {
        Some(i)
    } else {
        find_from(s, pat, i + 1)
    }
}

/// The first position at which `pat` occurs in `s`, counted in characters.
pub open spec fn find_spec(s: Seq<char>, pat: Seq<char>) -> Option<int> {
    find_from(s, pat, 0)
}

/// What `find_from` returns: the least occurrence at or after `i`, or none.
pub proof fn lemma_find_from(s: Seq<char>, pat: Seq<char>, i: int)
    requires
        0 <= i,
    ensures
        match find_from(s, pat, i) {
            Some(k) => i <= k && occurs_at(s, pat, k) && forall|j: int|
                i <= j < k ==> !occurs_at(s, pat, j),
            None => forall|j: int| i <= j ==> !occurs_at(s, pat, j),
        },
    decreases s.len() + 1 - i,
{
    if i <= s.len() && !occurs_at(s, pat, i) {
        lemma_find_from(s, pat, i + 1);
    }
}

/// The first position at which `pat` occurs in `s`, as `str::find` gives it (counted in
/// characters).
pub fn find_sub(s: &[char], pat: &[char]) -> (r: Option<usize>)
    ensures
        match r {
            Some(i) => find_spec(s@, pat@) == Some(i as int),
            None => find_spec(s@, pat@) is None,
        },
        match r {
            Some(i) => occurs_at(s@, pat@, i as int) && forall|j: int|
                0 <= j < i ==> !occurs_at(s@, pat@, j),
            None => !contains_spec(s@, pat@),
        },
{
    proof {
        lemma_find_from(s@, pat@, 0);
    }
    let mut i: usize = 0;
    while i < s.len()
        invariant
            i <= s@.len(),
            find_from(s@, pat@, 0) == find_from(s@, pat@, i as int),
            forall|j: int| 0 <= j < i ==> !occurs_at(s@, pat@, j),
        decreases s@.len() - i,
    {
        if matches_at(s, pat, i) {
            return Some(i);
        }
        i = i + 1;
    }
    if matches_at(s, pat, i) {
        return Some(i);
    }
    assert(find_from(s@, pat@, i + 1) is None);
    assert forall|j: int| !occurs_at(s@, pat@, j) by {
        if 0 <= j && j <= i {
        }
    }
    None
}

/// Whether `pat` occurs in `s`.
pub fn contains(s: &[char], pat: &[char]) -> (r: bool)
    ensures
        r == contains_spec(s@, pat@),
{
    match find_sub(s, pat) {
        Some(_) => true,
        None => false,
    }
}

/// The first position of `c` in `s`.
pub fn find_char(s: &[char], c: char) -> (r: Option<usize>)
    ensures
        match r {
            Some(i) => s@.index_of_first(c) == Some(i as int),
            None => s@.index_of_first(c) is None,
        },
{
    proof {
        s@.index_of_first_ensures(c);
    }
    let mut i: usize = 0;
    while i < s.len()
        invariant
            i <= s@.len(),
            forall|j: int| 0 <= j < i ==> s@[j] != c,
            match s@.index_of_first(c) {
                Some(index) => {
                    &&& 0 <= index < s@.len()
                    &&& s@[index] == c
                    &&& forall|j: int| 0 <= j < index < s@.len() ==> s@[j] != c
                },
                None => !s@.contains(c),
            },
        decreases s@.len() - i,
    {
        if s[i] == c {
            assert(s@.contains(c));
            return Some(i);
        }
        i = i + 1;
    }
    proof {
        if s@.contains(c) {
            let j = choose|j: int| 0 <= j < s@.len() && s@[j] == c;
            assert(s@[j] == c);
        }
    }
    None
}

/// The character sequences that the vectors of `v` hold.
pub open spec fn char_views(v: Seq<Vec<char>>) -> Seq<Seq<char>> {
    v.map_values(|x: Vec<char>| x@)
}

/// The character sequences that the strings of `v` hold.
pub open spec fn string_views(v: Seq<String>) -> Seq<Seq<char>> {
    v.map_values(|x: String| x@)
}

/// Appends `s` to `out`.
pub(crate) fn push_string(out: &mut Vec<String>, s: String)
    ensures
        string_views(final(out)@) == string_views(old(out)@).push(s@),
{
    let ghost before = string_views(out@);
    out.push(s);
    assert(string_views(out@) =~= before.push(s@));
}

// ------------------------------------------------------------------
// Splitting
// ------------------------------------------------------------------

/// The pieces of `s` between occurrences of `sep`, as `str::split` gives them (at least one).
pub open spec fn split_spec(s: Seq<char>, sep: char) -> Seq<Seq<char>>
    decreases s.len(),
{
    if s.len() == 0 {
        seq![Seq::empty()]
    } else {
        let prev = split_spec(s.drop_last(), sep);
        if s.last() == sep {
            prev.push(Seq::empty())
        } else {
            prev.update(prev.len() - 1, prev.last().push(s.last()))
        }
    }
}

/// The pieces of `s` between occurrences of `sep`.
pub fn split_on(s: &[char], sep: char) -> (r: Vec<Vec<char>>)
    ensures
        char_views(r@) == split_spec(s@, sep),
{
    let mut parts: Vec<Vec<char>> = Vec::new();
    let mut current: Vec<char> = Vec::new();
    let mut i: usize = 0;
    assert(s@.take(0) =~= Seq::<char>::empty());
    assert(char_views(parts@).push(current@) =~= split_spec(s@.take(0), sep));
    while i < s.len()
        invariant
            i <= s@.len(),
            char_views(parts@).push(current@) == split_spec(s@.take(i as int), sep),
        decreases s@.len() - i,
    {
        let c = s[i];
        let ghost prev = char_views(parts@).push(current@);
        assert(s@.take(i + 1).drop_last() =~= s@.take(i as int));
        if c == sep {
            let ghost old_parts = char_views(parts@);
            let ghost old_cur = current@;
            parts.push(current);
            assert(char_views(parts@) =~= old_parts.push(old_cur));
            current = Vec::new();
            assert(char_views(parts@).push(current@) =~= prev.push(Seq::empty()));
        } else {
            current.push(c);
            assert(char_views(parts@).push(current@) =~= prev.update(
                prev.len() - 1,
                prev.last().push(c),
            ));
        }
        i = i + 1;
    }
    assert(s@.take(s@.len() as int) =~= s@);
    let ghost old_parts = char_views(parts@);
    let ghost old_cur = current@;
    parts.push(current);
    assert(char_views(parts@) =~= old_parts.push(old_cur));
    parts
}


// ------------------------------------------------------------------
// Replacing
// ------------------------------------------------------------------

/// `s` with every occurrence of `pat` replaced by `with`, scanning from the left without
/// overlaps, as `str::replace` does for a non-empty pattern.
pub open spec fn replace_spec(s: Seq<char>, pat: Seq<char>, with: Seq<char>) -> Seq<char>
    decreases s.len(),
{
    if s.len() == 0 {
        Seq::empty()
    } else if pat.len() > 0 && occurs_at(s, pat, 0) {
        with + replace_spec(s.skip(pat.len() as int), pat, with)
    } else {
        seq![s[0]] + replace_spec(s.drop_first(), pat, with)
    }
}

/// `s` with every occurrence of the non-empty `pat` replaced by `with`.
pub fn replace_all(s: &[char], pat: &[char], with: &[char]) -> (r: Vec<char>)
    requires
        pat@.len() > 0,
    ensures
        r@ == replace_spec(s@, pat@, with@),
{
    let mut out: Vec<char> = Vec::new();
    let mut i: usize = 0;
    assert(s@.skip(0) =~= s@);
    while i < s.len()
        invariant
            i <= s@.len(),
            pat@.len() > 0,
            out@ + replace_spec(s@.skip(i as int), pat@, with@) == replace_spec(s@, pat@, with@),
        decreases s@.len() - i,
    {
        let ghost rest = s@.skip(i as int);
        if matches_at(s, pat, i) {
            assert(rest.subrange(0, pat@.len() as int) =~= s@.subrange(i as int, i + pat@.len()));
            assert(occurs_at(rest, pat@, 0));
            assert(rest.skip(pat@.len() as int) =~= s@.skip(i + pat@.len()));
            let mut k: usize = 0;
            let ghost before = out@;
            while k < with.len()
                invariant
                    k <= with@.len(),
                    out@ == before + with@.take(k as int),
                decreases with@.len() - k,
            {
                out.push(with[k]);
                k = k + 1;
                assert(out@ =~= before + with@.take(k as int));
            }
            assert(with@.take(with@.len() as int) =~= with@);
            assert(out@ + replace_spec(s@.skip(i + pat@.len()), pat@, with@) =~= before + (with@
                + replace_spec(rest.skip(pat@.len() as int), pat@, with@)));
            i = i + pat.len();
        } else {
            proof {
                if rest.len() >= pat@.len() {
                    assert(rest.subrange(0, pat@.len() as int) =~= s@.subrange(
                        i as int,
                        i + pat@.len(),
                    ));
                }
            }
            assert(!occurs_at(rest, pat@, 0));
            assert(rest.drop_first() =~= s@.skip(i + 1));
            let ghost before = out@;
            out.push(s[i]);
            assert(out@ + replace_spec(s@.skip(i + 1), pat@, with@) =~= before + (seq![rest[0]]
                + replace_spec(rest.drop_first(), pat@, with@)));
            i = i + 1;
        }
    }
    assert(s@.skip(i as int) =~= Seq::<char>::empty());
    assert(out@ + Seq::<char>::empty() =~= out@);
    out
}

// ------------------------------------------------------------------
// Ordering of strings
// ------------------------------------------------------------------

/// Lexicographic order by character code, which is the order of `String`'s `Ord`.
pub open spec fn lex_less(a: Seq<char>, b: Seq<char>) -> bool
    decreases a.len(),
{
    if a.len() == 0 {
        b.len() > 0
    } else if b.len() == 0 {
        false
    } else if a[0] != b[0] {
        (a[0] as int) < (b[0] as int)
    } else {
        lex_less(a.drop_first(), b.drop_first())
    }
}

pub proof fn lemma_lex_irreflexive(a: Seq<char>)
    ensures
        !lex_less(a, a),
    decreases a.len(),
{
    if a.len() > 0 {
        lemma_lex_irreflexive(a.drop_first());
    }
}

pub proof fn lemma_lex_total(a: Seq<char>, b: Seq<char>)
    ensures
        a != b ==> (lex_less(a, b) || lex_less(b, a)),
        !(lex_less(a, b) && lex_less(b, a)),
    decreases a.len(),
{
    if a.len() > 0 && b.len() > 0 {
        lemma_lex_total(a.drop_first(), b.drop_first());
        if a[0] == b[0] && a != b {
            assert(a =~= seq![a[0]] + a.drop_first());
            assert(b =~= seq![b[0]] + b.drop_first());
        }
    } else if a.len() == 0 && b.len() == 0 {
        assert(a =~= b);
    }
}

pub proof fn lemma_lex_transitive(a: Seq<char>, b: Seq<char>, c: Seq<char>)
    requires
        lex_less(a, b),
        lex_less(b, c),
    ensures
        lex_less(a, c),
    decreases a.len(),
{
    if a.len() > 0 && b.len() > 0 && c.len() > 0 {
        if a[0] == b[0] && b[0] == c[0] {
            lemma_lex_transitive(a.drop_first(), b.drop_first(), c.drop_first());
        }
    }
}

/// Whether `a` comes before `b` in lexicographic order.
pub fn lex_less_than(a: &[char], b: &[char]) -> (r: bool)
    ensures
        r == lex_less(a@, b@),
{
    let mut i: usize = 0;
    assert(a@.skip(0) =~= a@);
    assert(b@.skip(0) =~= b@);
    while i < a.len() && i < b.len() && a[i] == b[i]
        invariant
            i <= a@.len(),
            i <= b@.len(),
            forall|j: int| 0 <= j < i ==> a@[j] == b@[j],
            lex_less(a@, b@) == lex_less(a@.skip(i as int), b@.skip(i as int)),
        decreases a@.len() - i,
    {
        assert(a@.skip(i as int).drop_first() =~= a@.skip(i + 1));
        assert(b@.skip(i as int).drop_first() =~= b@.skip(i + 1));
        i = i + 1;
    }
    if i == a.len() {
        i < b.len()
    } else if i == b.len() {
        false
    } else {
        a[i] < b[i]
    }
}

// ------------------------------------------------------------------
// Unicode lower case
// ------------------------------------------------------------------

/// What `str::to_lowercase` returns for a string of the characters `s`.
pub uninterp spec fn unicode_lowercase(s: Seq<char>) -> Seq<char>;

/// Calls `str::to_lowercase`: the Unicode lower-case form of the characters `s`, named
/// `unicode_lowercase`. Stated beyond the name: each character maps to one or more characters,
/// so the result is empty exactly when `s` is. Which characters come out is left unsaid.
#[verifier::external_body]
pub(crate) fn to_lowercase(s: &[char]) -> (r: Vec<char>)
    ensures
        r@ == unicode_lowercase(s@),
        (r@.len() == 0) == (s@.len() == 0),
{
    s.iter().collect::<String>().to_lowercase().chars().collect()
}

} // verus!
