use vstd::prelude::*;

use crate::text::{chars_of, contains_spec, find_spec, find_sub, lemma_find_from, occurs_at};

verus! {

/// Whether `c` separates words in a search text.
pub open spec fn word_boundary_spec(c: char) -> bool {
    c == ' ' || c == '-' || c == '_' || c == '/' || c == '.' || c == ':' || c == '\\'
}

/// Whether `c` separates words in a search text.
pub fn is_word_boundary(c: char) -> (r: bool)
    ensures
        r == word_boundary_spec(c),
{
    c == ' ' || c == '-' || c == '_' || c == '/' || c == '.' || c == ':' || c == '\\'
}

/// `a + b` for `b >= 0`, held at `i32::MAX`, as `i32::saturating_add` gives it.
pub open spec fn sat_add(a: int, b: int) -> int {
    if a + b > i32::MAX {
        i32::MAX as int
    } else {
        a + b
    }
}

fn saturating_add(a: i32, b: i32) -> (r: i32)
    requires
        b >= 0,
    ensures
        r == sat_add(a as int, b as int),
{
    if a > i32::MAX - b {
        i32::MAX
    } else {
        a + b
    }
}

/// The number of bytes that UTF-8 encodes `c` in.
pub open spec fn utf8_width(c: char) -> int {
    if (c as int) < 0x80 {
        1
    } else if (c as int) < 0x800 {
        2
    } else if (c as int) < 0x10000 {
        3
    } else {
        4
    }
}

/// The number of bytes that UTF-8 encodes `s` in.
pub open spec fn utf8_len(s: Seq<char>) -> int
    decreases s.len(),
{
    if s.len() == 0 {
        0
    } else {
        utf8_len(s.drop_last()) + utf8_width(s.last())
    }
}

/// The greedy matcher after some characters of the text.
pub struct FuzzyState {
    /// How many characters of the query have been matched.
    pub matched: int,
    /// The score so far.
    pub score: int,
    /// How many query characters in a row have matched just before.
    pub consecutive: int,
    /// How many text characters have been read.
    pub index: int,
    /// The text character read last.
    pub previous: Option<char>,
}

/// One text character `ch`: where it is the next query character, it is matched for 50 points,
/// 30 more after another match, 100 more at the start of the text and 80 more after a word
/// boundary (all held at `i32::MAX`); nothing changes once the whole query is matched.
pub open spec fn fuzzy_step(query: Seq<char>, st: FuzzyState, ch: char) -> FuzzyState {
    if st.matched >= query.len() {
        st
    } else if ch == query[st.matched] {
        let s1 = sat_add(st.score, 50);
        let s2 = if st.consecutive > 0 {
            sat_add(s1, 30)
        } else {
            s1
        };
        let s3 = if st.index == 0 {
            sat_add(s2, 100)
        } else {
            s2
        };
        let s4 = if st.previous is Some && word_boundary_spec(st.previous->0) {
            sat_add(s3, 80)
        } else {
            s3
        };
        FuzzyState {
            matched: st.matched + 1,
            score: s4,
            consecutive: sat_add(st.consecutive, 1),
            index: st.index + 1,
            previous: Some(ch),
        }
    } else {
        FuzzyState { consecutive: 0, index: st.index + 1, previous: Some(ch), ..st }
    }
}

/// The greedy matcher after all of `text`.
pub open spec fn fuzzy_run(query: Seq<char>, text: Seq<char>) -> FuzzyState
    decreases text.len(),
{
    if text.len() == 0 {
        FuzzyState { matched: 0, score: 0, consecutive: 0, index: 0, previous: None }
    } else {
        fuzzy_step(query, fuzzy_run(query, text.drop_last()), text.last())
    }
}

/// The score of `query` against `text`: 0 for an empty query; `10000` minus the byte position
/// (held at `i32::MAX`) of the first occurrence of the query in the text; else the greedy
/// score where every query character is matched in order; else no score.
pub open spec fn fuzzy_spec(query: Seq<char>, text: Seq<char>) -> Option<int> {
    if query.len() == 0 {
        Some(0)
    } else {
        match find_spec(text, query) {
            Some(p) => {
                let bytes = utf8_len(text.take(p));
                Some(
                    10000 - (if bytes > i32::MAX {
                        i32::MAX as int
                    } else {
                        bytes
                    }),
                )
            },
            None => {
                let st = fuzzy_run(query, text);
                if st.matched == query.len() {
                    Some(st.score)
                } else {
                    None
                }
            },
        }
    }
}

fn width(c: char) -> (r: u64)
    ensures
        r == utf8_width(c),
{
    let n = c as u32;
    if n < 0x80 {
        1
    } else if n < 0x800 {
        2
    } else if n < 0x10000 {
        3
    } else {
        4
    }
}

/// The bytes of `s[..p]`, held at `i32::MAX`.
fn capped_byte_position(s: &[char], p: usize) -> (r: i32)
    requires
        p <= s@.len(),
    ensures
        r >= 0,
        r == (if utf8_len(s@.take(p as int)) > i32::MAX {
            i32::MAX as int
        } else {
            utf8_len(s@.take(p as int))
        }),
{
    let mut total: u64 = 0;
    let mut i: usize = 0;
    assert(s@.take(0) =~= Seq::<char>::empty());
    while i < p
        invariant
            i <= p <= s@.len(),
            utf8_len(s@.take(i as int)) >= 0,
            total == (if utf8_len(s@.take(i as int)) > i32::MAX {
                i32::MAX as int
            } else {
                utf8_len(s@.take(i as int))
            }),
        decreases p - i,
    {
        assert(s@.take(i + 1).drop_last() =~= s@.take(i as int));
        let w = width(s[i]);
        total = total + w;
        if total > i32::MAX as u64 {
            total = i32::MAX as u64;
        }
        i = i + 1;
    }
    total as i32
}

/// Scores how well `query` matches `text`; `None` where it does not match.
pub fn fuzzy_score(query: &str, text: &str) -> (r: Option<i32>)
    ensures
        match r {
            Some(v) => fuzzy_spec(query@, text@) == Some(v as int),
            None => fuzzy_spec(query@, text@) is None,
        },
{
    let q = chars_of(query);
    let t = chars_of(text);
    if q.len() == 0 {
        return Some(0);
    }
    match find_sub(t.as_slice(), q.as_slice()) {
        Some(p) => {
            let position = capped_byte_position(t.as_slice(), p);
            return Some(10000 - position);
        },
        None => {},
    }
    let mut matched: usize = 0;
    let mut score: i32 = 0;
    let mut consecutive: i32 = 0;
    let mut previous: Option<char> = None;
    let mut i: usize = 0;
    assert(t@.take(0) =~= Seq::<char>::empty());
    while i < t.len()
        invariant
            i <= t@.len(),
            ({
                let st = fuzzy_run(q@, t@.take(i as int));
                &&& matched == st.matched
                &&& score == st.score
                &&& consecutive == st.consecutive
                &&& previous == st.previous
                &&& (matched < q@.len() ==> st.index == i)
                &&& matched <= q@.len()
            }),
        decreases t@.len() - i,
    {
        assert(t@.take(i + 1).drop_last() =~= t@.take(i as int));
        if matched < q.len() {
            let ch = t[i];
            if ch == q[matched] {
                score = saturating_add(score, 50);
                if consecutive > 0 {
                    score = saturating_add(score, 30);
                }
                if i == 0 {
                    score = saturating_add(score, 100);
                }
                match previous {
                    Some(prev) => {
                        if is_word_boundary(prev) {
                            score = saturating_add(score, 80);
                        }
                    },
                    None => {},
                }
                consecutive = saturating_add(consecutive, 1);
                matched = matched + 1;
            } else {
                consecutive = 0;
            }
            previous = Some(ch);
        }
        i = i + 1;
    }
    assert(t@.take(t@.len() as int) =~= t@);
    if matched == q.len() {
        Some(score)
    } else {
        None
    }
}


// ------------------------------------------------------------------
// Which queries match
// ------------------------------------------------------------------

/// `idx` places the characters of `query`, in order, at increasing positions of `text`.
pub open spec fn embeds(query: Seq<char>, text: Seq<char>, idx: Seq<int>) -> bool {
    &&& idx.len() == query.len()
    &&& forall|k: int|
        0 <= k < idx.len() ==> 0 <= #[trigger] idx[k] < text.len() && text[idx[k]] == query[k]
    &&& forall|k: int, l: int| 0 <= k < l < idx.len() ==> #[trigger] idx[k] < #[trigger] idx[l]
}

/// The characters of `query` occur in `text` in the same order, not necessarily together.
pub open spec fn is_subsequence(query: Seq<char>, text: Seq<char>) -> bool {
    exists|idx: Seq<int>| embeds(query, text, idx)
}

proof fn lemma_greedy_witness(query: Seq<char>, text: Seq<char>) -> (idx: Seq<int>)
    ensures
        0 <= fuzzy_run(query, text).matched <= query.len(),
        embeds(query.take(fuzzy_run(query, text).matched), text, idx),
    decreases text.len(),
{
    if text.len() == 0 {
        let e = Seq::<int>::empty();
        assert(query.take(0) =~= Seq::<char>::empty());
        e
    } else {
        let t = text.drop_last();
        let prev = lemma_greedy_witness(query, t);
        let st = fuzzy_run(query, t);
        let c = text.last();
        let n = t.len() as int;
        assert forall|k: int| 0 <= k < prev.len() implies 0 <= #[trigger] prev[k] < text.len()
            && text[prev[k]] == query.take(st.matched)[k] by {
            assert(text[prev[k]] == t[prev[k]]);
        }
        if st.matched < query.len() && c == query[st.matched] {
            let idx = prev.push(n);
            let q1 = query.take(st.matched + 1);
            assert forall|k: int| 0 <= k < idx.len() implies 0 <= #[trigger] idx[k] < text.len()
                && text[idx[k]] == q1[k] by {
                if k < prev.len() {
                    assert(idx[k] == prev[k]);
                    assert(q1[k] == query.take(st.matched)[k]);
                } else {
                    assert(idx[k] == n);
                }
            }
            assert forall|k: int, l: int| 0 <= k < l < idx.len() implies #[trigger] idx[k]
                < #[trigger] idx[l] by {
                if l < prev.len() {
                    assert(idx[k] == prev[k] && idx[l] == prev[l]);
                } else {
                    assert(idx[k] == prev[k]);
                }
            }
            idx
        } else {
            prev
        }
    }
}

proof fn lemma_matched_grows(query: Seq<char>, text: Seq<char>)
    requires
        text.len() > 0,
    ensures
        fuzzy_run(query, text).matched >= fuzzy_run(query, text.drop_last()).matched,
{
}

proof fn lemma_greedy_optimal(query: Seq<char>, text: Seq<char>, m: int, idx: Seq<int>)
    requires
        0 <= m <= query.len(),
        embeds(query.take(m), text, idx),
    ensures
        fuzzy_run(query, text).matched >= m,
    decreases text.len(),
{
    let _ = lemma_greedy_witness(query, text);
    if m == 0 {
    } else if text.len() == 0 {
        assert(0 <= idx[0] < text.len());
    } else {
        let t = text.drop_last();
        let n = t.len() as int;
        lemma_matched_grows(query, text);
        if idx[m - 1] < n {
            assert forall|k: int| 0 <= k < idx.len() implies 0 <= #[trigger] idx[k] < t.len()
                && t[idx[k]] == query.take(m)[k] by {
                if k < m - 1 {
                    assert(idx[k] < idx[m - 1]);
                }
            }
            lemma_greedy_optimal(query, t, m, idx);
        } else {
            let idx1 = idx.drop_last();
            let q1 = query.take(m - 1);
            assert forall|k: int| 0 <= k < idx1.len() implies 0 <= #[trigger] idx1[k] < t.len()
                && t[idx1[k]] == q1[k] by {
                assert(idx1[k] == idx[k]);
                assert(idx[k] < idx[m - 1]);
                assert(q1[k] == query.take(m)[k]);
            }
            assert forall|k: int, l: int| 0 <= k < l < idx1.len() implies #[trigger] idx1[k]
                < #[trigger] idx1[l] by {
                assert(idx1[k] == idx[k] && idx1[l] == idx[l]);
            }
            lemma_greedy_optimal(query, t, m - 1, idx1);
            let _ = lemma_greedy_witness(query, t);
            assert(text.last() == text[idx[m - 1]]);
            assert(text[idx[m - 1]] == query.take(m)[m - 1]);
        }
    }
}

/// A query has a score against a text exactly when its characters occur in the text in order:
/// the search shows an application exactly when the query is a subsequence of its search text.
pub proof fn lemma_fuzzy_matches_iff_subsequence(query: Seq<char>, text: Seq<char>)
    ensures
        fuzzy_spec(query, text) is Some <==> is_subsequence(query, text),
{
    if query.len() == 0 {
        assert(embeds(query, text, Seq::<int>::empty()));
    } else {
        lemma_find_from(text, query, 0);
        match find_spec(text, query) {
            Some(p) => {
                let idx = Seq::new(query.len(), |k: int| p + k);
                assert forall|k: int| 0 <= k < idx.len() implies 0 <= #[trigger] idx[k]
                    < text.len() && text[idx[k]] == query[k] by {
                    assert(text.subrange(p, p + query.len())[k] == text[p + k]);
                }
                assert(embeds(query, text, idx));
            },
            None => {
                let w = lemma_greedy_witness(query, text);
                let st = fuzzy_run(query, text);
                if st.matched == query.len() {
                    assert(query.take(query.len() as int) =~= query);
                    assert(embeds(query, text, w));
                }
                if is_subsequence(query, text) {
                    let idx = choose|idx: Seq<int>| embeds(query, text, idx);
                    assert(query.take(query.len() as int) =~= query);
                    lemma_greedy_optimal(query, text, query.len() as int, idx);
                }
            },
        }
    }
}


proof fn lemma_utf8_len_at_least(s: Seq<char>)
    ensures
        utf8_len(s) >= s.len(),
    decreases s.len(),
{
    if s.len() > 0 {
        lemma_utf8_len_at_least(s.drop_last());
    }
}

/// A query that a text starts with scores 10000, more than in any text where it occurs exactly
/// but only further on: an exact match at the start ranks before a later one.
pub proof fn law_match_at_start_scores_highest(q: Seq<char>, t1: Seq<char>, t2: Seq<char>)
    requires
        q.len() > 0,
        occurs_at(t1, q, 0),
        contains_spec(t2, q),
        !occurs_at(t2, q, 0),
    ensures
        fuzzy_spec(q, t1) == Some(10000int),
        fuzzy_spec(q, t2) matches Some(score) && score < 10000,
{
    assert(find_spec(t1, q) == Some(0int));
    let j = choose|j: int| occurs_at(t2, q, j);
    lemma_find_from(t2, q, 0);
    let p = find_spec(t2, q)->0;
    assert(find_spec(t2, q) is Some) by {
        if find_spec(t2, q) is None {
            assert(!occurs_at(t2, q, j));
        }
    }
    assert(p > 0);
    assert(p <= t2.len());
    assert(t2.take(p).len() == p);
    lemma_utf8_len_at_least(t2.take(p));
}

} // verus!
