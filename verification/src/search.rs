use vstd::prelude::*;
use fuzzy_matcher::FuzzyMatcher;
use fuzzy_matcher::skim::SkimMatcherV2;
use crate::model::Document;

verus! {

// ---------------------------------------------------------------------------
// The fuzzy matcher
// ---------------------------------------------------------------------------

/// The score that the skim matcher (`SkimMatcherV2` in its default
/// configuration) gives `choice` for `pattern`, or `None` where `pattern`
/// does not match.
pub uninterp spec fn skim_score(choice: Seq<char>, pattern: Seq<char>) -> Option<i64>;

/// `c` in ASCII lower case.
pub open spec fn ascii_lower(c: char) -> char {
    let n = c as u32;
    if 65 <= n <= 90 {
        (n + 32) as char
    } else {
        c
    }
}

/// Whether `p` holds an ASCII capital letter.
pub open spec fn has_ascii_upper(p: Seq<char>) -> bool {
    exists|i: int| 0 <= i < p.len() && 65 <= #[trigger] (p[i] as u32) <= 90
}

/// Whether two characters match, exactly or regardless of ASCII case.
pub open spec fn same_char(a: char, b: char, case_sensitive: bool) -> bool {
    if case_sensitive {
        a == b
    } else {
        ascii_lower(a) == ascii_lower(b)
    }
}

/// Whether the characters of `p` occur in `c` in order.
pub open spec fn occurs_in_order(p: Seq<char>, c: Seq<char>, case_sensitive: bool) -> bool
    decreases c.len(),
{
    if p.len() == 0 {
        true
    } else if c.len() == 0 {
        false
    } else if same_char(c[0], p[0], case_sensitive) {
        occurs_in_order(p.drop_first(), c.drop_first(), case_sensitive)
    } else {
        occurs_in_order(p, c.drop_first(), case_sensitive)
    }
}

/// Whether `pattern` fuzzily matches `choice`: its characters occur in
/// `choice` in order, regardless of ASCII case unless `pattern` holds an
/// ASCII capital ("smart case").
pub open spec fn fuzzy_matches(choice: Seq<char>, pattern: Seq<char>) -> bool {
    occurs_in_order(pattern, choice, has_ascii_upper(pattern))
}

/// Scores `choice` against `pattern` with `FuzzyMatcher::fuzzy_match` of a
/// default `SkimMatcherV2`. The score is a function of the two strings alone
/// (the matcher's caches are scratch space), so it is named `skim_score`. As
/// the crate's source shows, a score is given exactly when the pattern's
/// characters occur in the choice in order (under smart case), and an empty
/// pattern scores zero. How a score's value is computed is not stated.
#[verifier::external_body]
fn fuzzy_score(choice: &str, pattern: &str) -> (r: Option<i64>)
    ensures
        r == skim_score(choice@, pattern@),
        r is Some <==> fuzzy_matches(choice@, pattern@),
        pattern@.len() == 0 ==> r == Some(0i64),
{
    SkimMatcherV2::default().fuzzy_match(choice, pattern)
}

// ---------------------------------------------------------------------------
// Ranking
// ---------------------------------------------------------------------------

/// A document that matched, as its index in the data and its score.
pub type Ranked = (int, i64);

/// The entries among the first `n` that have a score, as their index and
/// score, in order.
pub open spec fn matches_of(scores: Seq<Option<i64>>, n: int) -> Seq<Ranked>
    decreases n,
{
    if n <= 0 {
        seq![]
    } else {
        let prev = matches_of(scores, n - 1);
        match scores[n - 1] {
            Some(s) => prev.push((n - 1, s)),
            None => prev,
        }
    }
}

/// The matcher's score for the title of each document.
pub open spec fn title_scores(data: Seq<Document>, query: Seq<char>) -> Seq<Option<i64>> {
    Seq::new(data.len(), |i: int| skim_score(data[i].title_view(), query))
}

/// `x` placed into `s` after the leading entries that score at least as high.
pub open spec fn insert_ranked(s: Seq<Ranked>, x: Ranked) -> Seq<Ranked>
    decreases s.len(),
{
    if s.len() == 0 {
        seq![x]
    } else if s[0].1 >= x.1 {
        seq![s[0]] + insert_ranked(s.drop_first(), x)
    } else {
        seq![x] + s
    }
}

/// `s` ordered by descending score; entries of equal score keep their order.
pub open spec fn rank(s: Seq<Ranked>) -> Seq<Ranked>
    decreases s.len(),
{
    if s.len() == 0 {
        seq![]
    } else {
        insert_ranked(rank(s.drop_last()), s.last())
    }
}

/// The documents whose titles match `query`, best score first, documents of
/// equal score in the order of the data.
pub open spec fn ranking(data: Seq<Document>, query: Seq<char>) -> Seq<Ranked> {
    ranked_scores(title_scores(data, query))
}

/// The entries that have a score, best score first, entries of equal score
/// in their order.
pub open spec fn ranked_scores(scores: Seq<Option<i64>>) -> Seq<Ranked> {
    rank(matches_of(scores, scores.len() as int))
}

/// A document found by a search, with its score.
pub struct SearchResult<'a> {
    pub doc: &'a Document,
    pub score: i64,
}

/// Whether `results` lists the documents of `data` that `ranked` names, with
/// their scores, in that order.
pub open spec fn shows(results: Seq<SearchResult>, data: Seq<Document>, ranked: Seq<Ranked>) -> bool {
    &&& results.len() == ranked.len()
    &&& forall|k: int|
        0 <= k < ranked.len() ==> {
            &&& 0 <= #[trigger] ranked[k].0 < data.len()
            &&& *results[k].doc == data[ranked[k].0]
            &&& results[k].score == ranked[k].1
        }
}

/// Where `x` goes in `s`: after the first `p` entries, which score at least
/// as high, and before the rest, the first of which scores lower.
pub proof fn lemma_insert_at(s: Seq<Ranked>, x: Ranked, p: int)
    requires
        0 <= p <= s.len(),
        forall|k: int| 0 <= k < p ==> s[k].1 >= x.1,
        p < s.len() ==> s[p].1 < x.1,
    ensures
        insert_ranked(s, x) == s.insert(p, x),
    decreases p,
{
    if p == 0 {
        if s.len() > 0 {
            assert(insert_ranked(s, x) == seq![x] + s);
        }
        assert(s.insert(0, x) =~= insert_ranked(s, x));
    } else {
        lemma_insert_at(s.drop_first(), x, p - 1);
        assert(s.insert(p, x) =~= seq![s[0]] + s.drop_first().insert(p - 1, x));
    }
}

/// The documents of `data` that have a score in `scores` (the score of
/// `data[i]` being `scores[i]`), best score first; documents of equal score
/// keep the order of `data`.
pub fn rank_results<'a>(data: &'a [Document], scores: &[Option<i64>]) -> (r: Vec<SearchResult<'a>>)
    requires
        scores@.len() == data@.len(),
    ensures
        shows(r@, data@, ranked_scores(scores@)),
{
    let mut results: Vec<SearchResult<'a>> = Vec::new();
    let ghost mut g: Seq<Ranked> = seq![];
    let mut i: usize = 0;
    while i < data.len()
        invariant
            scores@.len() == data@.len(),
            0 <= i <= data@.len(),
            g == rank(matches_of(scores@, i as int)),
            shows(results@, data@, g),
        decreases data@.len() - i,
    {
        let ghost m = matches_of(scores@, i as int);
        let ghost m1 = matches_of(scores@, i + 1);
        match scores[i] {
            Some(score) => {
                assert(m1 == m.push((i as int, score)));
                assert(m1.drop_last() == m);
                let mut p: usize = 0;
                while p < results.len() && results[p].score >= score
                    invariant
                        0 <= p <= results@.len(),
                        shows(results@, data@, g),
                        forall|k: int| 0 <= k < p ==> g[k].1 >= score,
                    decreases results@.len() - p,
                {
                    assert(0 <= g[p as int].0 < data@.len());
                    p = p + 1;
                }
                proof {
                    if p < results@.len() {
                        assert(0 <= g[p as int].0 < data@.len());
                    }
                    lemma_insert_at(g, (i as int, score), p as int);
                }
                results.insert(p, SearchResult { doc: &data[i], score });
                proof {
                    let ng = g.insert(p as int, (i as int, score));
                    assert forall|k: int| 0 <= k < ng.len() implies {
                        &&& 0 <= #[trigger] ng[k].0 < data@.len()
                        &&& *results@[k].doc == data@[ng[k].0]
                        &&& results@[k].score == ng[k].1
                    } by {
                        if k < p {
                            assert(ng[k] == g[k]);
                        } else if k > p {
                            assert(ng[k] == g[k - 1]);
                        }
                    }
                    g = ng;
                }
            },
            None => {
                assert(m1 == m);
            },
        }
        i = i + 1;
    }
    results
}

/// The documents whose titles fuzzily match `query`, best score first;
/// documents of equal score keep the order of `data`. An empty query gives
/// every document a score of zero, so it keeps them all, in order.
pub fn search<'a>(query: &str, data: &'a [Document]) -> (r: Vec<SearchResult<'a>>)
    ensures
        shows(r@, data@, ranking(data@, query@)),
        query@.len() == 0 ==> ranking(data@, query@) == unranked(data@.len()),
        forall|i: int|
            0 <= i < data@.len() ==> ((exists|k: int|
                0 <= k < ranking(data@, query@).len() && ranking(data@, query@)[k].0 == i)
                <==> fuzzy_matches(#[trigger] data@[i].title_view(), query@)),
{
    let mut scores: Vec<Option<i64>> = Vec::new();
    let mut i: usize = 0;
    while i < data.len()
        invariant
            0 <= i <= data@.len(),
            scores@ == title_scores(data@, query@).subrange(0, i as int),
            query@.len() == 0 ==> forall|j: int| 0 <= j < i ==> #[trigger] scores@[j] == Some(0i64),
            forall|j: int|
                0 <= j < i ==> (#[trigger] scores@[j] is Some <==> fuzzy_matches(
                    data@[j].title_view(),
                    query@,
                )),
        decreases data@.len() - i,
    {
        let sc = fuzzy_score(data[i].title(), query);
        scores.push(sc);
        assert(title_scores(data@, query@).subrange(0, i + 1) == title_scores(data@, query@).subrange(
            0,
            i as int,
        ).push(sc));
        i = i + 1;
    }
    assert(title_scores(data@, query@).subrange(0, data@.len() as int) == title_scores(data@, query@));
    proof {
        if query@.len() == 0 {
            lemma_all_zero_ranking(scores@, data@.len() as int);
        }
        let r = ranking(data@, query@);
        law_ranked_scores(scores@);
        assert forall|i: int| 0 <= i < data@.len() implies ((exists|k: int|
            0 <= k < r.len() && r[k].0 == i) <==> fuzzy_matches(
            #[trigger] data@[i].title_view(),
            query@,
        )) by {
            assert(scores@[i] is Some <==> fuzzy_matches(data@[i].title_view(), query@));
            if exists|k: int| 0 <= k < r.len() && r[k].0 == i {
                let k = choose|k: int| 0 <= k < r.len() && r[k].0 == i;
                assert(r.contains(r[k]));
            }
            if scores@[i] is Some {
                let y = (i, scores@[i]->0);
                assert(r.contains(y));
                let k = choose|k: int| 0 <= k < r.len() && r[k] == y;
                assert(r[k].0 == i);
            }
        }
    }
    rank_results(data, &scores)
}

/// Every document listed in the order of the data, each with score zero.
pub open spec fn unranked(n: nat) -> Seq<Ranked> {
    Seq::new(n, |i: int| (i, 0i64))
}

/// Where every entry scores zero, the ranking keeps the entries as they are.
proof fn lemma_all_zero_ranking(scores: Seq<Option<i64>>, n: int)
    requires
        0 <= n <= scores.len(),
        forall|j: int| 0 <= j < n ==> #[trigger] scores[j] == Some(0i64),
    ensures
        matches_of(scores, n) == unranked(n as nat),
        rank(matches_of(scores, n)) == unranked(n as nat),
    decreases n,
{
    if n > 0 {
        lemma_all_zero_ranking(scores, n - 1);
        assert(scores[n - 1] == Some(0i64));
        let prev = unranked((n - 1) as nat);
        assert(matches_of(scores, n) == prev.push((n - 1, 0i64)));
        assert(prev.push((n - 1, 0i64)) =~= unranked(n as nat));
        assert(unranked(n as nat).drop_last() == prev);
        lemma_insert_pos(prev, (n - 1, 0i64));
        assert(insert_pos(prev, (n - 1, 0i64)) == prev.len());
        assert(prev.insert(prev.len() as int, (n - 1, 0i64)) =~= unranked(n as nat));
    }
}

// ---------------------------------------------------------------------------
// Laws of the ranking
// ---------------------------------------------------------------------------

/// Where `insert_ranked` places `x` in `s`.
pub open spec fn insert_pos(s: Seq<Ranked>, x: Ranked) -> int
    decreases s.len(),
{
    if s.len() == 0 {
        0
    } else if s[0].1 >= x.1 {
        1 + insert_pos(s.drop_first(), x)
    } else {
        0
    }
}

pub proof fn lemma_insert_pos(s: Seq<Ranked>, x: Ranked)
    ensures
        0 <= insert_pos(s, x) <= s.len(),
        forall|k: int| 0 <= k < insert_pos(s, x) ==> s[k].1 >= x.1,
        insert_pos(s, x) < s.len() ==> s[insert_pos(s, x)].1 < x.1,
        insert_ranked(s, x) == s.insert(insert_pos(s, x), x),
    decreases s.len(),
{
    if s.len() > 0 && s[0].1 >= x.1 {
        lemma_insert_pos(s.drop_first(), x);
        assert forall|k: int| 0 <= k < insert_pos(s, x) implies s[k].1 >= x.1 by {
            if k > 0 {
                assert(s[k] == s.drop_first()[k - 1]);
            }
        }
    }
    lemma_insert_at(s, x, insert_pos(s, x));
}

/// Scores never rise along `r`.
pub open spec fn best_first(r: Seq<Ranked>) -> bool {
    forall|i: int, j: int| 0 <= i < j < r.len() ==> r[i].1 >= r[j].1
}

/// Entries of equal score along `r` are in the order of their indices.
pub open spec fn ties_in_order(r: Seq<Ranked>) -> bool {
    forall|i: int, j: int| 0 <= i < j < r.len() && r[i].1 == r[j].1 ==> r[i].0 < r[j].0
}

/// Indices rise strictly along `r`.
pub open spec fn indices_rise(r: Seq<Ranked>) -> bool {
    forall|i: int, j: int| 0 <= i < j < r.len() ==> r[i].0 < r[j].0
}

/// No index occurs twice in `r`.
pub open spec fn indices_distinct(r: Seq<Ranked>) -> bool {
    forall|i: int, j: int| 0 <= i < j < r.len() ==> r[i].0 != r[j].0
}

/// Ranking entries given in the order of their indices orders them by score,
/// keeps ties in order, and keeps exactly the entries it was given.
pub proof fn lemma_rank(s: Seq<Ranked>)
    requires
        indices_rise(s),
    ensures
        rank(s).len() == s.len(),
        forall|y: Ranked| rank(s).contains(y) <==> s.contains(y),
        best_first(rank(s)),
        ties_in_order(rank(s)),
        indices_distinct(rank(s)),
    decreases s.len(),
{
    if s.len() > 0 {
        let t = s.drop_last();
        let x = s.last();
        lemma_rank(t);
        let r = rank(t);
        lemma_insert_pos(r, x);
        let p = insert_pos(r, x);
        let n = r.insert(p, x);
        assert(rank(s) == n);
        assert forall|k: int| 0 <= k < r.len() implies r[k].0 < x.0 by {
            assert(r.contains(r[k]));
            assert(t.contains(r[k]));
            let m = choose|m: int| 0 <= m < t.len() && t[m] == r[k];
            assert(s[m] == t[m]);
        }
        assert forall|y: Ranked| n.contains(y) <==> s.contains(y) by {
            if n.contains(y) {
                let k = choose|k: int| 0 <= k < n.len() && n[k] == y;
                if k < p {
                    assert(n[k] == r[k]);
                    assert(r.contains(r[k]));
                    assert(t.contains(r[k]));
                    let m = choose|m: int| 0 <= m < t.len() && t[m] == r[k];
                    assert(s[m] == t[m]);
                    assert(s.contains(y));
                } else if k > p {
                    assert(n[k] == r[k - 1]);
                    assert(r.contains(r[k - 1]));
                    assert(t.contains(r[k - 1]));
                    let m = choose|m: int| 0 <= m < t.len() && t[m] == r[k - 1];
                    assert(s[m] == t[m]);
                    assert(s.contains(y));
                } else {
                    assert(s[s.len() - 1] == x);
                    assert(s.contains(y));
                }
            }
            if s.contains(y) {
                let m = choose|m: int| 0 <= m < s.len() && s[m] == y;
                if m == s.len() - 1 {
                    assert(n[p] == x);
                    assert(n.contains(y));
                } else {
                    assert(t[m] == y);
                    assert(t.contains(y));
                    assert(r.contains(y));
                    let k = choose|k: int| 0 <= k < r.len() && r[k] == y;
                    if k < p {
                        assert(n[k] == y);
                    } else {
                        assert(n[k + 1] == y);
                    }
                    assert(n.contains(y));
                }
            }
        }
        assert forall|i: int, j: int| 0 <= i < j < n.len() implies n[i].1 >= n[j].1 by {
            if j < p {
                assert(n[i] == r[i] && n[j] == r[j]);
            } else if j == p {
                assert(n[i] == r[i]);
            } else if i < p {
                assert(n[i] == r[i] && n[j] == r[j - 1]);
                assert(r[p].1 < x.1);
                assert(r[p].1 >= r[j - 1].1);
            } else if i == p {
                assert(n[j] == r[j - 1]);
                assert(r[p].1 >= r[j - 1].1);
            } else {
                assert(n[i] == r[i - 1] && n[j] == r[j - 1]);
            }
        }
        assert forall|i: int, j: int| 0 <= i < j < n.len() && n[i].1 == n[j].1 implies n[i].0
            < n[j].0 by {
            if j < p {
                assert(n[i] == r[i] && n[j] == r[j]);
            } else if j == p {
                assert(n[i] == r[i]);
            } else if i < p {
                assert(n[i] == r[i] && n[j] == r[j - 1]);
                assert(r[p].1 >= r[j - 1].1);
            } else if i == p {
                assert(n[j] == r[j - 1]);
                assert(r[p].1 >= r[j - 1].1);
            } else {
                assert(n[i] == r[i - 1] && n[j] == r[j - 1]);
            }
        }
        assert forall|i: int, j: int| 0 <= i < j < n.len() implies n[i].0 != n[j].0 by {
            if j < p {
                assert(n[i] == r[i] && n[j] == r[j]);
            } else if j == p {
                assert(n[i] == r[i]);
            } else if i < p {
                assert(n[i] == r[i] && n[j] == r[j - 1]);
            } else if i == p {
                assert(n[j] == r[j - 1]);
            } else {
                assert(n[i] == r[i - 1] && n[j] == r[j - 1]);
            }
        }
    }
}

/// The entries that have a score among the first `n` are in order, and are
/// exactly the entries with a score.
pub proof fn lemma_matches_of(scores: Seq<Option<i64>>, n: int)
    requires
        0 <= n <= scores.len(),
    ensures
        indices_rise(matches_of(scores, n)),
        forall|y: Ranked| matches_of(scores, n).contains(y) <==> (0 <= y.0 < n && scores[y.0] == Some(y.1)),
    decreases n,
{
    if n > 0 {
        lemma_matches_of(scores, n - 1);
        let prev = matches_of(scores, n - 1);
        match scores[n - 1] {
            Some(sc) => {
                let m = prev.push((n - 1, sc));
                assert forall|k: int| 0 <= k < prev.len() implies #[trigger] prev[k].0 < n - 1 by {
                    assert(prev.contains(prev[k]));
                }
                assert forall|y: Ranked| m.contains(y) <==> (0 <= y.0 < n && scores[y.0] == Some(
                    y.1,
                )) by {
                    if m.contains(y) {
                        let k = choose|k: int| 0 <= k < m.len() && m[k] == y;
                        if k < prev.len() {
                            assert(prev.contains(y));
                        }
                    }
                    if 0 <= y.0 < n && scores[y.0] == Some(y.1) {
                        if y.0 == n - 1 {
                            assert(m[prev.len() as int] == y);
                        } else {
                            assert(prev.contains(y));
                            let k = choose|k: int| 0 <= k < prev.len() && prev[k] == y;
                            assert(m[k] == y);
                        }
                    }
                }
            },
            None => {
                assert forall|y: Ranked| prev.contains(y) <==> (0 <= y.0 < n && scores[y.0] == Some(
                    y.1,
                )) by {
                    if 0 <= y.0 < n && scores[y.0] == Some(y.1) {
                        assert(y.0 != n - 1);
                    }
                }
            },
        }
    }
}

/// What `rank_results` lists, for any scores: the best scores first, entries
/// of equal score in their order, and each entry that has a score once, with
/// that score, and no other.
pub proof fn law_ranked_scores(scores: Seq<Option<i64>>)
    ensures
        best_first(ranked_scores(scores)),
        ties_in_order(ranked_scores(scores)),
        indices_distinct(ranked_scores(scores)),
        forall|y: Ranked|
            ranked_scores(scores).contains(y) <==> (0 <= y.0 < scores.len() && scores[y.0] == Some(y.1)),
{
    let m = matches_of(scores, scores.len() as int);
    lemma_matches_of(scores, scores.len() as int);
    lemma_rank(m);
    assert forall|y: Ranked|
        ranked_scores(scores).contains(y) <==> (0 <= y.0 < scores.len() && scores[y.0] == Some(
            y.1,
        )) by {
        assert(rank(m).contains(y) <==> m.contains(y));
    }
}

/// A search lists the best scores first.
pub proof fn law_search_best_first(data: Seq<Document>, query: Seq<char>)
    ensures
        best_first(ranking(data, query)),
{
    law_ranked_scores(title_scores(data, query));
}

/// Documents of equal score come out in the order in which the data holds them.
pub proof fn law_search_ties_keep_order(data: Seq<Document>, query: Seq<char>)
    ensures
        ties_in_order(ranking(data, query)),
{
    law_ranked_scores(title_scores(data, query));
}

/// A search lists each document whose title the matcher scores, once and
/// with that score, and no other document.
pub proof fn law_search_lists_the_matches(data: Seq<Document>, query: Seq<char>)
    ensures
        indices_distinct(ranking(data, query)),
        forall|k: int|
            0 <= k < ranking(data, query).len() ==> {
                &&& 0 <= #[trigger] ranking(data, query)[k].0 < data.len()
                &&& skim_score(data[ranking(data, query)[k].0].title_view(), query) == Some(
                    ranking(data, query)[k].1,
                )
            },
        forall|i: int|
            0 <= i < data.len() && (#[trigger] skim_score(data[i].title_view(), query)) is Some
                ==> exists|k: int| 0 <= k < ranking(data, query).len() && ranking(data, query)[k].0 == i,
{
    let sc = title_scores(data, query);
    law_ranked_scores(sc);
    let r = ranking(data, query);
    assert forall|k: int| 0 <= k < r.len() implies {
        &&& 0 <= #[trigger] r[k].0 < data.len()
        &&& skim_score(data[r[k].0].title_view(), query) == Some(r[k].1)
    } by {
        assert(r.contains(r[k]));
    }
    assert forall|i: int|
        0 <= i < data.len() && (#[trigger] skim_score(data[i].title_view(), query)) is Some implies exists|k: int|
            0 <= k < r.len() && r[k].0 == i by {
        let y = (i, skim_score(data[i].title_view(), query)->0);
        assert(sc[i] == Some(y.1));
        assert(r.contains(y));
        let k = choose|k: int| 0 <= k < r.len() && r[k] == y;
        assert(r[k].0 == i);
    }
}

} // verus!
