use vstd::prelude::*;

use crate::apps::AppInfo;
use crate::fuzzy::{fuzzy_score, fuzzy_spec, is_subsequence, lemma_fuzzy_matches_iff_subsequence};
use crate::text::{
    chars_of, lemma_lex_irreflexive, lemma_lex_total, lemma_lex_transitive, lex_less, lex_less_than,
    string_of, to_lowercase, trim, trim_spec, unicode_lowercase,
};

verus! {

/// The query that a raw search text stands for: trimmed, then in lower case.
pub open spec fn search_query_spec(raw: Seq<char>) -> Seq<char> {
    unicode_lowercase(trim_spec(raw))
}

/// Whether application `i` matches the query `q`.
pub open spec fn app_matches(apps: Seq<AppInfo>, q: Seq<char>, i: int) -> bool {
    fuzzy_spec(q, apps[i].search_text@) is Some
}

/// The score of application `i` against the query `q`.
pub open spec fn app_score(apps: Seq<AppInfo>, q: Seq<char>, i: int) -> int {
    fuzzy_spec(q, apps[i].search_text@)->0
}

/// Whether application `i` is listed before application `j`: a higher score first, then the
/// name in `String` order, then the lower index.
pub open spec fn ranks_before(apps: Seq<AppInfo>, q: Seq<char>, i: int, j: int) -> bool {
    let si = app_score(apps, q, i);
    let sj = app_score(apps, q, j);
    ||| si > sj
    ||| si == sj && lex_less(apps[i].name@, apps[j].name@)
    ||| si == sj && apps[i].name@ == apps[j].name@ && i < j
}

/// The applications that the query `q` lists, in order: every index for an empty query; else
/// exactly the matching indices, each once, best first.
pub open spec fn ranking_spec(apps: Seq<AppInfo>, q: Seq<char>, r: Seq<usize>) -> bool {
    if q.len() == 0 {
        r == Seq::new(apps.len(), |i: int| i as usize)
    } else {
        &&& forall|k: int|
            0 <= k < r.len() ==> #[trigger] r[k] < apps.len() && app_matches(apps, q, r[k] as int)
        &&& forall|i: int| 0 <= i < apps.len() && app_matches(apps, q, i) ==> r.contains(i as usize)
        &&& forall|k: int, l: int|
            0 <= k < l < r.len() ==> ranks_before(
                apps,
                q,
                #[trigger] r[k] as int,
                #[trigger] r[l] as int,
            )
    }
}

/// The applications that the raw search text `raw` lists, in order.
pub open spec fn search_results_spec(apps: Seq<AppInfo>, raw: Seq<char>, r: Seq<usize>) -> bool {
    ranking_spec(apps, search_query_spec(raw), r)
}

/// Results are listed best score first: for a non-empty query, an application listed before
/// another has a fuzzy score at least as high, and one whose score is strictly higher than a
/// listed application's is itself listed, before it.
pub proof fn law_ranked_by_score(apps: Seq<AppInfo>, q: Seq<char>, r: Seq<usize>)
    requires
        q.len() > 0,
        apps.len() <= usize::MAX,
        ranking_spec(apps, q, r),
    ensures
        forall|k: int, l: int|
            0 <= k < l < r.len() ==> fuzzy_spec(q, apps[#[trigger] r[k] as int].search_text@)->0
                >= fuzzy_spec(q, apps[#[trigger] r[l] as int].search_text@)->0,
        forall|i: int, l: int|
            #![trigger apps[i], r[l]]
            0 <= i < apps.len() && 0 <= l < r.len() && fuzzy_spec(q, apps[i].search_text@) is Some
                && fuzzy_spec(q, apps[i].search_text@)->0 > fuzzy_spec(
                q,
                apps[r[l] as int].search_text@,
            )->0 ==> exists|k: int| 0 <= k < l && #[trigger] r[k] == i as usize,
{
    assert forall|i: int, l: int|
        #![trigger apps[i], r[l]]
        0 <= i < apps.len() && 0 <= l < r.len() && fuzzy_spec(q, apps[i].search_text@) is Some
            && fuzzy_spec(q, apps[i].search_text@)->0 > fuzzy_spec(
            q,
            apps[r[l] as int].search_text@,
        )->0 implies exists|k: int| 0 <= k < l && #[trigger] r[k] == i as usize by {
        assert(app_matches(apps, q, i));
        assert(r.contains(i as usize));
        let k = choose|k: int| 0 <= k < r.len() && r[k] == i as usize;
        assert(r[k] as int == i);
        if k > l {
            assert(ranks_before(apps, q, r[l] as int, r[k] as int));
            assert(false);
        } else if k == l {
            assert(false);
        } else {
            assert(0 <= k < l && r[k] == i as usize);
        }
    }
}

pub proof fn lemma_ranks_total(apps: Seq<AppInfo>, q: Seq<char>, i: int, j: int)
    ensures
        i != j ==> ranks_before(apps, q, i, j) || ranks_before(apps, q, j, i),
        !(ranks_before(apps, q, i, j) && ranks_before(apps, q, j, i)),
{
    lemma_lex_total(apps[i].name@, apps[j].name@);
    lemma_lex_irreflexive(apps[i].name@);
}

pub proof fn lemma_ranks_transitive(apps: Seq<AppInfo>, q: Seq<char>, i: int, j: int, k: int)
    requires
        ranks_before(apps, q, i, j),
        ranks_before(apps, q, j, k),
    ensures
        ranks_before(apps, q, i, k),
{
    if app_score(apps, q, i) == app_score(apps, q, j) && app_score(apps, q, j) == app_score(
        apps,
        q,
        k,
    ) {
        let (a, b, c) = (apps[i].name@, apps[j].name@, apps[k].name@);
        if lex_less(a, b) && lex_less(b, c) {
            lemma_lex_transitive(a, b, c);
        }
    }
}

fn before(
    score_a: i32,
    name_a: &[char],
    index_a: usize,
    score_b: i32,
    name_b: &[char],
    index_b: usize,
) -> (r: bool)
    ensures
        r == (score_a > score_b || (score_a == score_b && lex_less(name_a@, name_b@)) || (score_a
            == score_b && name_a@ == name_b@ && index_a < index_b)),
{
    if score_a != score_b {
        return score_a > score_b;
    }
    if lex_less_than(name_a, name_b) {
        return true;
    }
    if lex_less_than(name_b, name_a) {
        return false;
    }
    proof {
        lemma_lex_total(name_a@, name_b@);
    }
    index_a < index_b
}

/// The query that the raw search text `raw` stands for.
pub fn search_query(raw: &str) -> (r: String)
    ensures
        r@ == search_query_spec(raw@),
        (r@.len() == 0) == (trim_spec(raw@).len() == 0),
{
    let chars = chars_of(raw);
    let trimmed = trim(chars.as_slice());
    let q = to_lowercase(trimmed.as_slice());
    string_of(q.as_slice())
}

/// The indices of the applications that the search text `query` lists, best first.
pub fn search_results(apps: &Vec<AppInfo>, query: &str) -> (r: Vec<usize>)
    ensures
        search_results_spec(apps@, query@, r@),
        trim_spec(query@).len() == 0 ==> r@ == Seq::new(apps@.len(), |i: int| i as usize),
{
    let q = search_query(query);
    rank_apps(apps, q.as_str())
}

/// How many of `total` results a list of at most `max_rows` rows shows (all where unset).
pub open spec fn shown_count(total: nat, max_rows: Option<usize>) -> nat {
    match max_rows {
        Some(m) => if m < total {
            m as nat
        } else {
            total
        },
        None => total,
    }
}

/// The indices that a result list of at most `max_rows` rows shows for the search text `query`:
/// the first of the ranked results, as many as fit.
pub fn shown_results(apps: &Vec<AppInfo>, query: &str, max_rows: Option<usize>) -> (r: Vec<usize>)
    ensures
        exists|all: Seq<usize>|
            #![trigger search_results_spec(apps@, query@, all)]
            search_results_spec(apps@, query@, all) && r@ == all.take(
                shown_count(all.len(), max_rows) as int,
            ),
        trim_spec(query@).len() == 0 ==> r@ == Seq::new(
            shown_count(apps@.len(), max_rows),
            |i: int| i as usize,
        ),
{
    let all = search_results(apps, query);
    let ghost full = all@;
    let n = match max_rows {
        Some(m) => if m < all.len() {
            m
        } else {
            all.len()
        },
        None => all.len(),
    };
    let mut out: Vec<usize> = Vec::new();
    let mut i: usize = 0;
    while i < n
        invariant
            n <= all@.len(),
            i <= n,
            all@ == full,
            out@ == full.take(i as int),
        decreases n - i,
    {
        out.push(all[i]);
        i = i + 1;
        assert(out@ =~= full.take(i as int));
    }
    assert(search_results_spec(apps@, query@, full));
    proof {
        if trim_spec(query@).len() == 0 {
            assert(out@ =~= Seq::new(shown_count(apps@.len(), max_rows), |i: int| i as usize));
        }
    }
    out
}

/// The indices of the applications that the (trimmed, lower-case) query `query` lists, best
/// first.
pub fn rank_apps(apps: &Vec<AppInfo>, query: &str) -> (r: Vec<usize>)
    ensures
        ranking_spec(apps@, query@, r@),
        query@.len() > 0 ==> forall|k: int, l: int|
            0 <= k < l < r@.len() ==> fuzzy_spec(query@, apps@[#[trigger] r@[k] as int].search_text@)->0
                >= fuzzy_spec(query@, apps@[#[trigger] r@[l] as int].search_text@)->0,
{
    let q = chars_of(query);
    let ghost qs = query@;
    let n = apps.len();
    if q.len() == 0 {
        let mut all: Vec<usize> = Vec::new();
        let mut i: usize = 0;
        while i < n
            invariant
                i <= n == apps@.len(),
                all@ == Seq::new(i as nat, |k: int| k as usize),
            decreases n - i,
        {
            all.push(i);
            i = i + 1;
            assert(all@ =~= Seq::new(i as nat, |k: int| k as usize));
        }
        return all;
    }
    let query_string = query;
    let mut names: Vec<Vec<char>> = Vec::new();
    let mut ranked: Vec<(i32, usize)> = Vec::new();
    let mut i: usize = 0;
    while i < n
        invariant
            i <= n == apps@.len(),
            query_string@ == qs,
            names@.len() == i,
            forall|k: int| 0 <= k < i ==> (#[trigger] names@[k])@ == apps@[k].name@,
            forall|k: int|
                0 <= k < ranked@.len() ==> (#[trigger] ranked@[k]).1 < i && app_matches(
                    apps@,
                    qs,
                    ranked@[k].1 as int,
                ) && app_score(apps@, qs, ranked@[k].1 as int) == ranked@[k].0,
            forall|j: int|
                0 <= j < i && app_matches(apps@, qs, j) ==> exists|k: int|
                    0 <= k < ranked@.len() && (#[trigger] ranked@[k]).1 == j,
            forall|k: int, l: int|
                0 <= k < l < ranked@.len() ==> ranks_before(
                    apps@,
                    qs,
                    (#[trigger] ranked@[k]).1 as int,
                    (#[trigger] ranked@[l]).1 as int,
                ),
        decreases n - i,
    {
        let name = chars_of(apps[i].name.as_str());
        names.push(name);
        assert(names@[i as int]@ == apps@[i as int].name@);
        match fuzzy_score(query_string, apps[i].search_text.as_str()) {
            Some(score) => {
                let mut p: usize = 0;
                while p < ranked.len() && !before(
                    score,
                    names[i].as_slice(),
                    i,
                    ranked[p].0,
                    names[ranked[p].1].as_slice(),
                    ranked[p].1,
                )
                    invariant
                        p <= ranked@.len(),
                        i < n == apps@.len(),
                        names@.len() == i + 1,
                        forall|k: int| 0 <= k <= i ==> (#[trigger] names@[k])@ == apps@[k].name@,
                        forall|k: int|
                            0 <= k < ranked@.len() ==> (#[trigger] ranked@[k]).1 < i && app_matches(
                                apps@,
                                qs,
                                ranked@[k].1 as int,
                            ) && app_score(apps@, qs, ranked@[k].1 as int) == ranked@[k].0,
                        app_matches(apps@, qs, i as int),
                        app_score(apps@, qs, i as int) == score,
                        forall|k: int|
                            0 <= k < p ==> !ranks_before(
                                apps@,
                                qs,
                                i as int,
                                (#[trigger] ranked@[k]).1 as int,
                            ),
                    decreases ranked@.len() - p,
                {
                    p = p + 1;
                }
                let ghost old_ranked = ranked@;
                ranked.insert(p, (score, i));
                proof {
                    assert forall|k: int|
                        0 <= k < ranked@.len() implies (#[trigger] ranked@[k]).1 < i + 1
                        && app_matches(apps@, qs, ranked@[k].1 as int) && app_score(
                        apps@,
                        qs,
                        ranked@[k].1 as int,
                    ) == ranked@[k].0 by {
                        if k < p {
                            assert(ranked@[k] == old_ranked[k]);
                        } else if k > p {
                            assert(ranked@[k] == old_ranked[k - 1]);
                        }
                    }
                    assert forall|j: int|
                        0 <= j < i + 1 && app_matches(apps@, qs, j) implies exists|k: int|
                        0 <= k < ranked@.len() && (#[trigger] ranked@[k]).1 == j by {
                        if j == i {
                            assert(ranked@[p as int].1 == j);
                        } else {
                            let k0 = choose|k: int|
                                0 <= k < old_ranked.len() && (#[trigger] old_ranked[k]).1 == j;
                            if k0 < p {
                                assert(ranked@[k0].1 == j);
                            } else {
                                assert(ranked@[k0 + 1].1 == j);
                            }
                        }
                    }
                    assert forall|k: int, l: int|
                        0 <= k < l < ranked@.len() implies ranks_before(
                        apps@,
                        qs,
                        (#[trigger] ranked@[k]).1 as int,
                        (#[trigger] ranked@[l]).1 as int,
                    ) by {
                        let ii = i as int;
                        if l < p {
                            assert(ranked@[k] == old_ranked[k] && ranked@[l] == old_ranked[l]);
                        } else if l == p {
                            assert(ranked@[k] == old_ranked[k]);
                            let a = old_ranked[k].1 as int;
                            lemma_ranks_total(apps@, qs, ii, a);
                        } else if k == p {
                            assert(ranked@[l] == old_ranked[l - 1]);
                            let b = old_ranked[l - 1].1 as int;
                            let c = old_ranked[p as int].1 as int;
                            if l - 1 > p {
                                lemma_ranks_transitive(apps@, qs, ii, c, b);
                            }
                        } else if k < p {
                            assert(ranked@[k] == old_ranked[k] && ranked@[l] == old_ranked[l - 1]);
                            if k < l - 1 {
                            } else {
                            }
                        } else {
                            assert(ranked@[k] == old_ranked[k - 1] && ranked@[l]
                                == old_ranked[l - 1]);
                        }
                    }
                }
            },
            None => {},
        }
        i = i + 1;
    }
    let mut result: Vec<usize> = Vec::new();
    let mut k: usize = 0;
    while k < ranked.len()
        invariant
            k <= ranked@.len(),
            result@.len() == k,
            forall|m: int| 0 <= m < k ==> #[trigger] result@[m] == ranked@[m].1,
        decreases ranked@.len() - k,
    {
        result.push(ranked[k].1);
        k = k + 1;
    }
    assert forall|j: int|
        0 <= j < apps@.len() && app_matches(apps@, qs, j) implies result@.contains(j as usize) by {
        let k0 = choose|k: int| 0 <= k < ranked@.len() && (#[trigger] ranked@[k]).1 == j;
        assert(result@[k0] == j as usize);
    }
    assert forall|a: int, b: int| 0 <= a < b < result@.len() implies ranks_before(
        apps@,
        qs,
        #[trigger] result@[a] as int,
        #[trigger] result@[b] as int,
    ) by {
        assert(result@[a] == ranked@[a].1 && result@[b] == ranked@[b].1);
    }
    proof {
        law_ranked_by_score(apps@, qs, result@);
    }
    result
}


/// For a non-empty query, the search lists an application exactly when the query's characters
/// occur, in order, in the application's search text.
pub proof fn lemma_ranking_lists_subsequence_matches(
    apps: Seq<AppInfo>,
    q: Seq<char>,
    r: Seq<usize>,
    i: usize,
)
    requires
        ranking_spec(apps, q, r),
        q.len() > 0,
        i < apps.len(),
    ensures
        r.contains(i) <==> is_subsequence(q, apps[i as int].search_text@),
{
    lemma_fuzzy_matches_iff_subsequence(q, apps[i as int].search_text@);
    if r.contains(i) {
        let k = choose|k: int| 0 <= k < r.len() && r[k] == i;
        assert(app_matches(apps, q, r[k] as int));
    }
    if app_matches(apps, q, i as int) {
        assert(r.contains(i));
    }
}

/// No application is listed twice.
pub proof fn lemma_ranking_distinct(apps: Seq<AppInfo>, q: Seq<char>, r: Seq<usize>)
    requires
        apps.len() <= usize::MAX,
        ranking_spec(apps, q, r),
    ensures
        r.no_duplicates(),
{
    assert forall|k: int, l: int|
        0 <= k < r.len() && 0 <= l < r.len() && k != l implies r[k] != r[l] by {
        if q.len() > 0 {
            let (a, b) = if k < l {
                (k, l)
            } else {
                (l, k)
            };
            assert(ranks_before(apps, q, r[a] as int, r[b] as int));
            lemma_ranks_total(apps, q, r[a] as int, r[a] as int);
            if r[a] == r[b] {
                assert(ranks_before(apps, q, r[a] as int, r[a] as int));
            }
        } else {
            assert(r[k] as int == k && r[l] as int == l);
        }
    }
}

} // verus!
