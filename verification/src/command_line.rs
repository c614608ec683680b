use vstd::prelude::*;

use crate::text::{chars_of, string_of, string_views};

verus! {

/// Where the splitter of an `Exec` line stands after some of its characters.
pub struct SplitState {
    /// The arguments completed so far.
    pub args: Seq<Seq<char>>,
    /// The argument being read.
    pub current: Seq<char>,
    /// Inside single quotes.
    pub single_quote: bool,
    /// Inside double quotes.
    pub double_quote: bool,
    /// The previous character was an unquoted-or-double-quoted backslash.
    pub escaped: bool,
    /// An argument has begun (possibly an empty quoted one).
    pub token_started: bool,
}

/// The splitter before any character.
pub open spec fn split_start() -> SplitState {
    SplitState {
        args: Seq::empty(),
        current: Seq::empty(),
        single_quote: false,
        double_quote: false,
        escaped: false,
        token_started: false,
    }
}

/// One character of an `Exec` line: a backslash (outside single quotes) takes the next character
/// literally; quotes toggle quoting; an unquoted space or tab ends a begun argument; any other
/// character joins the current argument.
pub open spec fn split_step(st: SplitState, c: char) -> SplitState {
    if st.escaped {
        SplitState { current: st.current.push(c), escaped: false, token_started: true, ..st }
    } else if c == '\\' && !st.single_quote {
        SplitState { escaped: true, token_started: true, ..st }
    } else if c == '\'' && !st.double_quote {
        SplitState { single_quote: !st.single_quote, token_started: true, ..st }
    } else if c == '"' && !st.single_quote {
        SplitState { double_quote: !st.double_quote, token_started: true, ..st }
    } else if (c == ' ' || c == '\t') && !st.single_quote && !st.double_quote {
        if st.token_started {
            SplitState {
                args: st.args.push(st.current),
                current: Seq::empty(),
                token_started: false,
                ..st
            }
        } else {
            st
        }
    } else {
        SplitState { current: st.current.push(c), token_started: true, ..st }
    }
}

/// The splitter after all characters of `s`.
pub open spec fn split_run(s: Seq<char>) -> SplitState
    decreases s.len(),
{
    if s.len() == 0 {
        split_start()
    } else {
        split_step(split_run(s.drop_last()), s.last())
    }
}

/// The arguments of an `Exec` line, or `None` where it ends inside quotes or after a lone
/// backslash.
pub open spec fn exec_split_spec(s: Seq<char>) -> Option<Seq<Seq<char>>> {
    let st = split_run(s);
    if st.escaped || st.single_quote || st.double_quote {
        None
    } else if st.token_started {
        Some(st.args.push(st.current))
    } else {
        Some(st.args)
    }
}

/// Splits the `Exec` value of a desktop entry into arguments, honouring quotes and backslashes.
pub fn desktop_exec_split(input: &str) -> (r: Option<Vec<String>>)
    ensures
        match r {
            Some(args) => exec_split_spec(input@) == Some(string_views(args@)),
            None => exec_split_spec(input@) is None,
        },
{
    let s = chars_of(input);
    let mut args: Vec<String> = Vec::new();
    let mut current: Vec<char> = Vec::new();
    let mut single_quote = false;
    let mut double_quote = false;
    let mut escaped = false;
    let mut token_started = false;
    let mut i: usize = 0;
    assert(s@.take(0) =~= Seq::<char>::empty());
    while i < s.len()
        invariant
            i <= s@.len(),
            s@ == input@,
            ({
                let st = split_run(s@.take(i as int));
                &&& string_views(args@) == st.args
                &&& current@ == st.current
                &&& single_quote == st.single_quote
                &&& double_quote == st.double_quote
                &&& escaped == st.escaped
                &&& token_started == st.token_started
            }),
        decreases s@.len() - i,
    {
        let c = s[i];
        assert(s@.take(i + 1).drop_last() =~= s@.take(i as int));
        if escaped {
            current.push(c);
            escaped = false;
            token_started = true;
        } else if c == '\\' && !single_quote {
            escaped = true;
            token_started = true;
        } else if c == '\'' && !double_quote {
            single_quote = !single_quote;
            token_started = true;
        } else if c == '"' && !single_quote {
            double_quote = !double_quote;
            token_started = true;
        } else if (c == ' ' || c == '\t') && !single_quote && !double_quote {
            if token_started {
                let ghost before = string_views(args@);
                let arg = string_of(current.as_slice());
                args.push(arg);
                assert(string_views(args@) =~= before.push(current@));
                current = Vec::new();
                token_started = false;
            }
        } else {
            current.push(c);
            token_started = true;
        }
        i = i + 1;
    }
    assert(s@.take(s@.len() as int) =~= s@);
    if escaped {
        return None;
    }
    if single_quote || double_quote {
        return None;
    }
    if token_started {
        let ghost before = string_views(args@);
        let arg = string_of(current.as_slice());
        args.push(arg);
        assert(string_views(args@) =~= before.push(current@));
    }
    Some(args)
}


/// Whether `c` separates arguments outside quotes.
pub open spec fn is_blank(c: char) -> bool {
    c == ' ' || c == '\t'
}

/// Whether `s` holds no quote and no backslash.
pub open spec fn plain_line(s: Seq<char>) -> bool {
    forall|i: int| 0 <= i < s.len() ==> #[trigger] s[i] != '\\' && s[i] != '\'' && s[i] != '"'
}

/// The characters of `s` that are not blanks.
pub open spec fn non_blank(s: Seq<char>) -> Seq<char>
    decreases s.len(),
{
    if s.len() == 0 {
        Seq::empty()
    } else if is_blank(s.last()) {
        non_blank(s.drop_last())
    } else {
        non_blank(s.drop_last()).push(s.last())
    }
}

/// The arguments of `args` written one after another.
pub open spec fn concat_all(args: Seq<Seq<char>>) -> Seq<char>
    decreases args.len(),
{
    if args.len() == 0 {
        Seq::empty()
    } else {
        concat_all(args.drop_last()) + args.last()
    }
}

/// Arguments that are words: not empty and without blanks.
pub open spec fn all_words(args: Seq<Seq<char>>) -> bool {
    forall|k: int|
        0 <= k < args.len() ==> (#[trigger] args[k]).len() > 0 && forall|j: int|
            0 <= j < args[k].len() ==> !is_blank(#[trigger] args[k][j])
}

/// The maximal runs of characters of `s` that are not blanks, in order.
pub open spec fn blank_words(s: Seq<char>) -> Seq<Seq<char>>
    decreases s.len(),
{
    if s.len() == 0 {
        Seq::empty()
    } else {
        let prev = blank_words(s.drop_last());
        if is_blank(s.last()) {
            prev
        } else if s.len() >= 2 && !is_blank(s[s.len() - 2]) {
            prev.update(prev.len() - 1, prev.last().push(s.last()))
        } else {
            prev.push(seq![s.last()])
        }
    }
}

proof fn lemma_plain_run(s: Seq<char>)
    requires
        plain_line(s),
    ensures
        ({
            let st = split_run(s);
            &&& !st.escaped && !st.single_quote && !st.double_quote
            &&& st.token_started == (st.current.len() > 0)
            &&& all_words(st.args)
            &&& forall|j: int| 0 <= j < st.current.len() ==> !is_blank(#[trigger] st.current[j])
            &&& concat_all(st.args) + st.current == non_blank(s)
            &&& (st.current.len() > 0) == (s.len() > 0 && !is_blank(s.last()))
            &&& blank_words(s) == if st.current.len() > 0 {
                st.args.push(st.current)
            } else {
                st.args
            }
        }),
    decreases s.len(),
{
    if s.len() == 0 {
        let none = Seq::<char>::empty();
        assert(concat_all(Seq::<Seq<char>>::empty()) + none =~= none);
    } else {
        let p = s.drop_last();
        assert(plain_line(p)) by {
            assert forall|i: int| 0 <= i < p.len() implies #[trigger] p[i] != '\\' && p[i] != '\''
                && p[i] != '"' by {
                assert(p[i] == s[i]);
            }
        }
        lemma_plain_run(p);
        let st = split_run(p);
        let c = s.last();
        assert(c == s[s.len() - 1]);
        assert(p.len() > 0 ==> p.last() == s[s.len() - 2]);
        if is_blank(c) {
            if st.token_started {
                let args2 = st.args.push(st.current);
                assert(args2.drop_last() =~= st.args);
                assert(concat_all(args2) + Seq::<char>::empty() =~= concat_all(st.args)
                    + st.current);
                assert forall|k: int| 0 <= k < args2.len() implies (#[trigger] args2[k]).len() > 0
                    && forall|j: int|
                    0 <= j < args2[k].len() ==> !is_blank(#[trigger] args2[k][j]) by {
                    if k < st.args.len() {
                        assert(args2[k] == st.args[k]);
                    }
                }
            }
        } else {
            let cur2 = st.current.push(c);
            if st.current.len() > 0 {
                let prev = st.args.push(st.current);
                assert(prev.update(prev.len() - 1, prev.last().push(c)) =~= st.args.push(cur2));
            } else {
                assert(cur2 =~= seq![c]);
            }
            assert(concat_all(st.args) + cur2 =~= (concat_all(st.args) + st.current).push(c));
            assert forall|j: int| 0 <= j < cur2.len() implies !is_blank(#[trigger] cur2[j]) by {
                if j < st.current.len() {
                    assert(cur2[j] == st.current[j]);
                }
            }
        }
    }
}

/// An `Exec` line without quotes or backslashes splits at blanks: it always splits, into its
/// maximal runs of other characters, in order; these are non-empty, hold no blank, and together
/// hold exactly its characters that are not blanks.
pub proof fn lemma_plain_exec_split(s: Seq<char>)
    requires
        plain_line(s),
    ensures
        exec_split_spec(s) == Some(blank_words(s)),
        all_words(blank_words(s)),
        concat_all(blank_words(s)) == non_blank(s),
{
    lemma_plain_run(s);
    let st = split_run(s);
    if st.token_started {
        let args = st.args.push(st.current);
        assert(args.drop_last() =~= st.args);
        assert forall|k: int| 0 <= k < args.len() implies (#[trigger] args[k]).len() > 0 && forall|
            j: int,
        | 0 <= j < args[k].len() ==> !is_blank(#[trigger] args[k][j]) by {
            if k < st.args.len() {
                assert(args[k] == st.args[k]);
            }
        }
    } else {
        assert(concat_all(st.args) + st.current =~= concat_all(st.args));
    }
}

/// Inside single quotes everything but a single quote is read literally.
proof fn lemma_single_quoted_run(t: Seq<char>)
    requires
        !t.contains('\''),
    ensures
        split_run(seq!['\''] + t) == (SplitState {
            args: Seq::empty(),
            current: t,
            single_quote: true,
            double_quote: false,
            escaped: false,
            token_started: true,
        }),
    decreases t.len(),
{
    let s = seq!['\''] + t;
    if t.len() == 0 {
        assert(s.drop_last() =~= Seq::<char>::empty());
        assert(split_run(s.drop_last()) == split_start());
        assert(s.last() == '\'');
        assert(t =~= Seq::<char>::empty());
    } else {
        assert(!t.drop_last().contains('\'')) by {
            if t.drop_last().contains('\'') {
                let k = choose|k: int| 0 <= k < t.drop_last().len() && t.drop_last()[k] == '\'';
                assert(t[k] == '\'');
            }
        }
        lemma_single_quoted_run(t.drop_last());
        assert(s.drop_last() =~= seq!['\''] + t.drop_last());
        assert(s.last() == t[t.len() - 1]);
        assert(t[t.len() - 1] != '\'');
        assert(t.drop_last().push(t.last()) =~= t);
    }
}

/// A single-quoted argument is taken literally: for any text `s` without single quotes
/// (backslashes, double quotes and blanks included), the line `'s'` splits into exactly `[s]`.
pub proof fn law_single_quotes_literal(s: Seq<char>)
    requires
        !s.contains('\''),
    ensures
        exec_split_spec(seq!['\''] + s + seq!['\'']) == Some(seq![s]),
{
    let line = seq!['\''] + s + seq!['\''];
    lemma_single_quoted_run(s);
    assert(line.drop_last() =~= seq!['\''] + s);
    assert(line.last() == '\'');
    assert(Seq::<Seq<char>>::empty().push(s) =~= seq![s]);
}

/// Inside double quotes everything but a double quote or a backslash is read literally.
proof fn lemma_double_quoted_run(t: Seq<char>)
    requires
        !t.contains('"'),
        !t.contains('\\'),
    ensures
        split_run(seq!['"'] + t) == (SplitState {
            args: Seq::empty(),
            current: t,
            single_quote: false,
            double_quote: true,
            escaped: false,
            token_started: true,
        }),
    decreases t.len(),
{
    let s = seq!['"'] + t;
    if t.len() == 0 {
        assert(s.drop_last() =~= Seq::<char>::empty());
        assert(split_run(s.drop_last()) == split_start());
        assert(s.last() == '"');
        assert(t =~= Seq::<char>::empty());
    } else {
        assert(!t.drop_last().contains('"') && !t.drop_last().contains('\\')) by {
            if t.drop_last().contains('"') {
                let k = choose|k: int| 0 <= k < t.drop_last().len() && t.drop_last()[k] == '"';
                assert(t[k] == '"');
            }
            if t.drop_last().contains('\\') {
                let k = choose|k: int| 0 <= k < t.drop_last().len() && t.drop_last()[k] == '\\';
                assert(t[k] == '\\');
            }
        }
        lemma_double_quoted_run(t.drop_last());
        assert(s.drop_last() =~= seq!['"'] + t.drop_last());
        assert(s.last() == t[t.len() - 1]);
        assert(t[t.len() - 1] != '"' && t[t.len() - 1] != '\\');
        assert(t.drop_last().push(t.last()) =~= t);
    }
}

/// A double-quoted argument without backslashes is taken literally: for any text `s` without
/// double quotes or backslashes (single quotes and blanks included), the line `"s"` splits into
/// exactly `[s]`.
pub proof fn law_double_quotes_literal(s: Seq<char>)
    requires
        !s.contains('"'),
        !s.contains('\\'),
    ensures
        exec_split_spec(seq!['"'] + s + seq!['"']) == Some(seq![s]),
{
    let line = seq!['"'] + s + seq!['"'];
    lemma_double_quoted_run(s);
    assert(line.drop_last() =~= seq!['"'] + s);
    assert(line.last() == '"');
    assert(Seq::<Seq<char>>::empty().push(s) =~= seq![s]);
}

/// A backslash outside single quotes takes the next character literally, whatever it is: the
/// line made of a backslash and `c` splits into the one argument `c`.
pub proof fn law_backslash_escapes(c: char)
    ensures
        exec_split_spec(seq!['\\', c]) == Some(seq![seq![c]]),
{
    let line = seq!['\\', c];
    assert(line.drop_last() =~= seq!['\\']);
    assert(line.drop_last().drop_last() =~= Seq::<char>::empty());
    assert(split_run(line.drop_last().drop_last()) == split_start());
    assert(line.drop_last().last() == '\\');
    let st1 = split_run(line.drop_last());
    assert(st1 == split_step(split_start(), '\\'));
    assert(st1.escaped && !st1.single_quote && !st1.double_quote);
    assert(line.last() == c);
    assert(split_run(line) == split_step(st1, c));
    assert(Seq::<char>::empty().push(c) =~= seq![c]);
    assert(Seq::<Seq<char>>::empty().push(seq![c]) =~= seq![seq![c]]);
}

} // verus!
