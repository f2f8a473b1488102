use vstd::prelude::*;
use crate::model::Document;
use crate::search::{
    Ranked, SearchResult, law_search_best_first, law_search_ties_keep_order, ranking, search, shows,
    unranked,
};
use crate::text::{pop_char, push_char};

verus! {

/// The most entries that the browser lists while the query is empty.
pub const BROWSE_LIMIT: usize = 100;

/// A key press, as far as the browser tells keys apart.
#[derive(Debug, Clone, Copy, PartialEq, Eq)]
pub enum KeyInput {
    Esc,
    Char(char),
    Backspace,
    Down,
    Up,
    Enter,
    Other,
}

/// The state of the interactive browser: the query typed so far, the
/// documents it searches, the entries it lists and the selected entry.
pub struct App<'a> {
    input: String,
    data: &'a [Document],
    results: Vec<SearchResult<'a>>,
    selected: Option<usize>,
}

/// The browser's state as values: the documents, the query, the listed
/// documents with their scores, and the selected position.
pub struct AppView {
    pub data: Seq<Document>,
    pub input: Seq<char>,
    pub results: Seq<(Document, i64)>,
    pub selected: Option<usize>,
}

/// The documents and scores that a list of search results holds.
pub open spec fn result_view<'a>(rs: Seq<SearchResult<'a>>) -> Seq<(Document, i64)> {
    rs.map_values(|r: SearchResult<'a>| (*r.doc, r.score))
}

/// The documents of `data` that `ranked` names, with their scores.
pub open spec fn listed(data: Seq<Document>, ranked: Seq<Ranked>) -> Seq<(Document, i64)> {
    ranked.map_values(|x: Ranked| (data[x.0], x.1))
}

/// What the browser lists for a query: while the query is empty the first
/// entries of the data, unscored; else the search's ranking.
pub open spec fn results_for(data: Seq<Document>, input: Seq<char>) -> Seq<Ranked> {
    if input.len() == 0 {
        unranked(if data.len() < BROWSE_LIMIT { data.len() } else { BROWSE_LIMIT as nat })
    } else {
        ranking(data, input)
    }
}

/// The state after the list is brought up to date with the query: the first
/// entry is selected, or none where the list is empty.
pub open spec fn refreshed(data: Seq<Document>, input: Seq<char>) -> AppView {
    AppView {
        data,
        input,
        results: listed(data, results_for(data, input)),
        selected: if results_for(data, input).len() == 0 {
            None
        } else {
            Some(0usize)
        },
    }
}

/// The state after `c` is typed.
pub open spec fn key_typed(v: AppView, c: char) -> AppView {
    refreshed(v.data, v.input.push(c))
}

/// The state after the last character of the query is erased.
pub open spec fn backspaced(v: AppView) -> AppView {
    refreshed(v.data, if v.input.len() > 0 { v.input.drop_last() } else { v.input })
}

/// The position selected after moving down a list of `n` entries: the next
/// one, or the first after the last.
pub open spec fn next_index(sel: Option<usize>, n: usize) -> usize {
    match sel {
        Some(i) => if i + 1 >= n {
            0
        } else {
            (i + 1) as usize
        },
        None => 0,
    }
}

/// The position selected after moving up a list of `n` entries: the previous
/// one, or the last before the first.
pub open spec fn previous_index(sel: Option<usize>, n: usize) -> usize {
    match sel {
        Some(i) => if i == 0 {
            if n == 0 {
                0
            } else {
                (n - 1) as usize
            }
        } else {
            (i - 1) as usize
        },
        None => 0,
    }
}

/// `v` with `sel` selected.
pub open spec fn with_selected(v: AppView, sel: usize) -> AppView {
    AppView { selected: Some(sel), ..v }
}

proof fn lemma_shows_listed<'a>(rs: Seq<SearchResult<'a>>, data: Seq<Document>, ranked: Seq<Ranked>)
    requires
        shows(rs, data, ranked),
    ensures
        result_view(rs) == listed(data, ranked),
{
    assert forall|k: int| 0 <= k < rs.len() implies #[trigger] result_view(rs)[k] == listed(
        data,
        ranked,
    )[k] by {
        assert(0 <= ranked[k].0 < data.len());
    }
    assert(result_view(rs) =~= listed(data, ranked));
}

impl<'a> App<'a> {
    pub closed spec fn view(&self) -> AppView {
        AppView {
            data: self.data@,
            input: self.input@,
            results: result_view(self.results@),
            selected: self.selected,
        }
    }

    /// A browser over `data` with an empty query and an empty list.
    pub fn new(data: &'a [Document]) -> (app: App<'a>)
        ensures
            app.view() == (AppView {
                data: data@,
                input: Seq::empty(),
                results: Seq::empty(),
                selected: None,
            }),
    {
        let app = App { input: String::new(), data, results: Vec::new(), selected: None };
        assert(result_view(app.results@) =~= Seq::<(Document, i64)>::empty());
        app
    }

    /// The query typed so far.
    pub fn input(&self) -> (s: &str)
        ensures
            s@ == self.view().input,
    {
        self.input.as_str()
    }

    /// The listed entries.
    pub fn results(&self) -> (r: &[SearchResult<'a>])
        ensures
            result_view(r@) == self.view().results,
    {
        self.results.as_slice()
    }

    /// The selected position, if any.
    pub fn selected(&self) -> (s: Option<usize>)
        ensures
            s == self.view().selected,
    {
        self.selected
    }

    /// Brings the list up to date with the query and selects its first entry.
    pub fn update_search(&mut self)
        ensures
            final(self).view() == refreshed(old(self).view().data, old(self).view().input),
    {
        let ghost ranked = results_for(self.data@, self.input@);
        if self.input.as_str().is_empty() {
            let mut rs: Vec<SearchResult<'a>> = Vec::new();
            let mut i: usize = 0;
            while i < self.data.len() && i < BROWSE_LIMIT
                invariant
                    0 <= i <= self.data@.len(),
                    i <= BROWSE_LIMIT,
                    shows(rs@, self.data@, unranked(i as nat)),
                decreases self.data@.len() - i,
            {
                let ghost before = rs@;
                rs.push(SearchResult { doc: &self.data[i], score: 0 });
                assert forall|k: int| 0 <= k < i + 1 implies {
                    &&& 0 <= #[trigger] unranked((i + 1) as nat)[k].0 < self.data@.len()
                    &&& *rs@[k].doc == self.data@[unranked((i + 1) as nat)[k].0]
                    &&& rs@[k].score == unranked((i + 1) as nat)[k].1
                } by {
                    if k < i {
                        assert(unranked(i as nat)[k] == unranked((i + 1) as nat)[k]);
                        assert(0 <= unranked(i as nat)[k].0 < self.data@.len());
                    }
                }
                i = i + 1;
            }
            assert(unranked(i as nat) == ranked);
            proof {
                lemma_shows_listed(rs@, self.data@, ranked);
            }
            self.results = rs;
        } else {
            let rs = search(self.input.as_str(), self.data);
            proof {
                lemma_shows_listed(rs@, self.data@, ranked);
            }
            self.results = rs;
        }
        self.selected = if self.results.len() == 0 {
            None
        } else {
            Some(0)
        };
    }

    /// Adds `c` to the query and brings the list up to date.
    pub fn on_key(&mut self, c: char)
        ensures
            final(self).view() == key_typed(old(self).view(), c),
    {
        push_char(&mut self.input, c);
        self.update_search();
    }

    /// Erases the last character of the query and brings the list up to date.
    pub fn on_backspace(&mut self)
        ensures
            final(self).view() == backspaced(old(self).view()),
    {
        let _ = pop_char(&mut self.input);
        self.update_search();
    }

    /// Moves the selection down, from the last entry back to the first.
    pub fn select_next(&mut self)
        ensures
            final(self).view() == with_selected(
                old(self).view(),
                next_index(old(self).view().selected, old(self).view().results.len() as usize),
            ),
    {
        let i = match self.selected {
            Some(i) => {
                if i >= self.results.len().saturating_sub(1) {
                    0
                } else {
                    i + 1
                }
            },
            None => 0,
        };
        self.selected = Some(i);
    }

    /// Moves the selection up, from the first entry round to the last.
    pub fn select_previous(&mut self)
        ensures
            final(self).view() == with_selected(
                old(self).view(),
                previous_index(old(self).view().selected, old(self).view().results.len() as usize),
            ),
    {
        let i = match self.selected {
            Some(i) => {
                if i == 0 {
                    self.results.len().saturating_sub(1)
                } else {
                    i - 1
                }
            },
            None => 0,
        };
        self.selected = Some(i);
    }

    /// Acts on a key press; returns whether the browser goes on (false on Esc).
    /// Enter changes nothing.
    pub fn handle_key(&mut self, key: KeyInput) -> (go_on: bool)
        ensures
            go_on == (key != KeyInput::Esc),
            final(self).view() == (match key {
                KeyInput::Char(c) => key_typed(old(self).view(), c),
                KeyInput::Backspace => backspaced(old(self).view()),
                KeyInput::Down => with_selected(
                    old(self).view(),
                    next_index(old(self).view().selected, old(self).view().results.len() as usize),
                ),
                KeyInput::Up => with_selected(
                    old(self).view(),
                    previous_index(old(self).view().selected, old(self).view().results.len() as usize),
                ),
                _ => old(self).view(),
            }),
    {
        match key {
            KeyInput::Esc => false,
            KeyInput::Char(c) => {
                self.on_key(c);
                true
            },
            KeyInput::Backspace => {
                self.on_backspace();
                true
            },
            KeyInput::Down => {
                self.select_next();
                true
            },
            KeyInput::Up => {
                self.select_previous();
                true
            },
            KeyInput::Enter => true,
            KeyInput::Other => true,
        }
    }
}

// ---------------------------------------------------------------------------
// Laws of the browser
// ---------------------------------------------------------------------------

/// Moving up undoes moving down, and moving down undoes moving up, on any
/// position of a non-empty list.
pub proof fn law_up_undoes_down(i: usize, n: usize)
    requires
        i < n,
    ensures
        previous_index(Some(next_index(Some(i), n)), n) == i,
        next_index(Some(previous_index(Some(i), n)), n) == i,
{
}

/// On a non-empty list the selection stays on an entry: moving down from
/// anywhere, and moving up from an entry or from no selection.
pub proof fn law_selection_stays_in_list(sel: Option<usize>, n: usize)
    requires
        n > 0,
        sel matches Some(i) ==> i < n,
    ensures
        next_index(sel, n) < n,
        previous_index(sel, n) < n,
{
}

/// Moving down from anywhere lands on an entry of a non-empty list.
pub proof fn law_down_lands_in_list(sel: Option<usize>, n: usize)
    requires
        n > 0,
    ensures
        next_index(sel, n) < n,
{
}

/// The selection after moving down `k` times from `sel` in a list of `n` entries.
pub open spec fn moved_down(sel: Option<usize>, n: usize, k: nat) -> Option<usize>
    decreases k,
{
    if k == 0 {
        sel
    } else {
        Some(next_index(moved_down(sel, n, (k - 1) as nat), n))
    }
}

/// Whether some of the first `n` moves down from `sel` selects entry `j`.
pub open spec fn visited_within(sel: Option<usize>, n: usize, j: usize) -> bool {
    exists|k: nat| 1 <= k <= n && #[trigger] moved_down(sel, n, k) == Some(j)
}

/// One step past `x`, taken modulo `n`.
proof fn lemma_mod_step(x: int, n: int)
    requires
        0 <= x,
        0 < n,
    ensures
        (x + 1) % n == if x % n + 1 == n { 0 } else { x % n + 1 },
{
    let q = x / n;
    let m = x % n;
    vstd::arithmetic::div_mod::lemma_fundamental_div_mod(x, n);
    assert(0 <= m < n);
    if m + 1 == n {
        assert(x + 1 == (q + 1) * n + 0) by (nonlinear_arith)
            requires
                x == n * q + m,
                m + 1 == n,
        ;
        vstd::arithmetic::div_mod::lemma_fundamental_div_mod_converse(x + 1, n, q + 1, 0);
    } else {
        assert(x + 1 == q * n + (m + 1)) by (nonlinear_arith)
            requires
                x == n * q + m,
        ;
        vstd::arithmetic::div_mod::lemma_fundamental_div_mod_converse(x + 1, n, q, m + 1);
    }
}

/// Moving down `k` times from entry `i` selects entry `(i + k) % n`.
proof fn lemma_moved_down(i: usize, n: usize, k: nat)
    requires
        i < n,
    ensures
        moved_down(Some(i), n, k) == Some(((i + k) % (n as int)) as usize),
    decreases k,
{
    if k == 0 {
        vstd::arithmetic::div_mod::lemma_small_mod(i as nat, n as nat);
    } else {
        lemma_moved_down(i, n, (k - 1) as nat);
        lemma_mod_step(i + k - 1, n as int);
        assert(i + (k - 1) + 1 == i + k);
    }
}

/// Moving down through a non-empty list visits every entry: `n` moves from
/// entry `i` select `(i + 1) % n`, `(i + 2) % n`, ..., and end back at `i`,
/// each entry selected exactly once.
pub proof fn law_down_cycles(i: usize, n: usize)
    requires
        i < n,
    ensures
        forall|k: nat| #[trigger] moved_down(Some(i), n, k) == Some(((i + k) % (n as int)) as usize),
        moved_down(Some(i), n, n as nat) == Some(i),
        forall|j: usize| j < n ==> #[trigger] visited_within(Some(i), n, j),
        forall|k1: nat, k2: nat|
            1 <= k1 < k2 <= n ==> #[trigger] moved_down(Some(i), n, k1) != #[trigger] moved_down(
                Some(i),
                n,
                k2,
            ),
{
    assert forall|k: nat| #[trigger] moved_down(Some(i), n, k) == Some(
        ((i + k) % (n as int)) as usize,
    ) by {
        lemma_moved_down(i, n, k);
    }
    lemma_moved_down(i, n, n as nat);
    vstd::arithmetic::div_mod::lemma_fundamental_div_mod_converse(i + n, n as int, 1, i as int);
    assert forall|j: usize| j < n implies #[trigger] visited_within(Some(i), n, j) by {
        let k: nat = if j > i { (j - i) as nat } else { (j + n - i) as nat };
        lemma_moved_down(i, n, k);
        if j > i {
            vstd::arithmetic::div_mod::lemma_fundamental_div_mod_converse(i + k, n as int, 0, j as int);
        } else {
            vstd::arithmetic::div_mod::lemma_fundamental_div_mod_converse(i + k, n as int, 1, j as int);
        }
        assert(moved_down(Some(i), n, k) == Some(j));
    }
    assert forall|k1: nat, k2: nat| 1 <= k1 < k2 <= n implies #[trigger] moved_down(Some(i), n, k1)
        != #[trigger] moved_down(Some(i), n, k2) by {
        lemma_moved_down(i, n, k1);
        lemma_moved_down(i, n, k2);
        let a = i + k1;
        let b = i + k2;
        vstd::arithmetic::div_mod::lemma_fundamental_div_mod(a, n as int);
        vstd::arithmetic::div_mod::lemma_fundamental_div_mod(b, n as int);
        if a % (n as int) == b % (n as int) {
            let qa = a / (n as int);
            let qb = b / (n as int);
            assert(b - a == (qb - qa) * n) by (nonlinear_arith)
                requires
                    a == n * qa + a % (n as int),
                    b == n * qb + b % (n as int),
                    a % (n as int) == b % (n as int),
            ;
            assert(false) by (nonlinear_arith)
                requires
                    b - a == (qb - qa) * n,
                    0 < b - a < n,
            ;
        }
    }
}

/// After the list is brought up to date, an entry is selected exactly when
/// the list is not empty, and it is the first.
pub proof fn law_refresh_selects_first(data: Seq<Document>, input: Seq<char>)
    ensures
        refreshed(data, input).selected is None <==> refreshed(data, input).results.len() == 0,
        refreshed(data, input).selected matches Some(i) ==> i == 0,
{
}

/// Erasing a character just typed restores the query and the list: the
/// state is that of the list brought up to date with the former query, and
/// so the former state itself where that list was up to date.
pub proof fn law_backspace_undoes_key(v: AppView, c: char)
    ensures
        backspaced(key_typed(v, c)) == refreshed(v.data, v.input),
        v == refreshed(v.data, v.input) ==> backspaced(key_typed(v, c)) == v,
{
    assert(v.input.push(c).drop_last() =~= v.input);
}

/// For a non-empty query the browser lists what the search finds, in the
/// search's order: scores never rise along the list, entries of equal score
/// keep the order of the data, and the entry selected first scores highest.
pub proof fn law_refresh_lists_search_order(data: Seq<Document>, input: Seq<char>)
    requires
        input.len() > 0,
    ensures
        refreshed(data, input).results == listed(data, ranking(data, input)),
        forall|i: int, j: int|
            0 <= i < j < refreshed(data, input).results.len() ==> (#[trigger] refreshed(
                data,
                input,
            ).results[i]).1 >= (#[trigger] refreshed(data, input).results[j]).1,
        forall|i: int, j: int|
            0 <= i < j < ranking(data, input).len() && (#[trigger] ranking(data, input)[i]).1
                == (#[trigger] ranking(data, input)[j]).1 ==> ranking(data, input)[i].0 < ranking(
                data,
                input,
            )[j].0,
        refreshed(data, input).selected matches Some(s) ==> s == 0 && forall|k: int|
            0 <= k < refreshed(data, input).results.len() ==> refreshed(data, input).results[0].1
                >= (#[trigger] refreshed(data, input).results[k]).1,
{
    law_search_best_first(data, input);
    law_search_ties_keep_order(data, input);
    let r = ranking(data, input);
    let l = refreshed(data, input).results;
    assert forall|i: int, j: int| 0 <= i < j < l.len() implies (#[trigger] l[i]).1 >= (
    #[trigger] l[j]).1 by {
        assert(l[i].1 == r[i].1);
        assert(l[j].1 == r[j].1);
    }
    if l.len() > 0 {
        assert forall|k: int| 0 <= k < l.len() implies l[0].1 >= (#[trigger] l[k]).1 by {
            if k > 0 {
                assert(l[0].1 == r[0].1);
                assert(l[k].1 == r[k].1);
            }
        }
    }
}

/// For an empty query the browser lists the first documents of the data, at
/// most `BROWSE_LIMIT` of them, in order and unscored.
pub proof fn law_empty_query_browses(data: Seq<Document>, input: Seq<char>)
    requires
        input.len() == 0,
    ensures
        refreshed(data, input).results.len() == if data.len() < BROWSE_LIMIT {
            data.len()
        } else {
            BROWSE_LIMIT as nat
        },
        forall|k: int|
            0 <= k < refreshed(data, input).results.len() ==> #[trigger] refreshed(
                data,
                input,
            ).results[k] == (data[k], 0i64),
{
}

} // verus!
