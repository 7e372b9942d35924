//! Searching the task titles of the tree: matches in tree order, and jumps
//! from one match to the next that open only the folds above the match.

use std::collections::HashSet;
use vstd::prelude::*;

use crate::board::{App, Mode, SearchState};
use crate::folds::ancestors_up;
use crate::review::{pop_char, push_char};
use crate::snapshots::set_members;
use crate::task::views;
use crate::tree::lookup;

verus! {

/// What `str::to_lowercase` gives for `s`.
pub uninterp spec fn lowercase_of(s: Seq<char>) -> Seq<char>;

/// Whether every character of `s` is ASCII.
pub open spec fn ascii_text(s: Seq<char>) -> bool {
    forall|i: int| 0 <= i < s.len() ==> (#[trigger] s[i] as u32) < 128
}

/// `c` with an ASCII capital turned into its small letter.
pub open spec fn ascii_lower(c: char) -> char {
    if 'A' <= c <= 'Z' {
        ((c as u32) + 32) as char
    } else {
        c
    }
}

/// Calls `str::to_lowercase`: `s` in lower case, by Unicode's rules. For
/// ASCII text that means A to Z become a to z and nothing else changes.
#[verifier::external_body]
pub(crate) fn lowercase(s: &str) -> (r: String)
    ensures
        r@ == lowercase_of(s@),
        ascii_text(s@) ==> r@ == s@.map_values(|c: char| ascii_lower(c)),
{
    s.to_lowercase()
}

/// Whether `q` occurs in `s` at position `i`.
pub open spec fn occurs_at(s: Seq<char>, q: Seq<char>, i: int) -> bool {
    0 <= i && i + q.len() <= s.len() && s.subrange(i, i + q.len()) == q
}

/// Whether `q` occurs in `s`.
pub open spec fn holds_text(s: Seq<char>, q: Seq<char>) -> bool {
    exists|i: int| occurs_at(s, q, i)
}

/// Whether `q` occurs in `s` at position `i`.
fn text_at(s: &str, q: &str, i: usize) -> (r: bool)
    requires
        i + q@.len() <= s@.len(),
    ensures
        r == occurs_at(s@, q@, i as int),
{
    let n = s.unicode_len();
    let m = q.unicode_len();
    let mut j: usize = 0;
    while j < m
        invariant
            n == s@.len(),
            m == q@.len(),
            i + m <= s@.len(),
            j <= m,
            forall|k: int| 0 <= k < j ==> s@[i + k] == q@[k],
        decreases m - j,
    {
        if s.get_char(i + j) != q.get_char(j) {
            proof {
                assert(s@.subrange(i as int, i + m)[j as int] != q@[j as int]);
            }
            return false;
        }
        j = j + 1;
    }
    proof {
        assert(s@.subrange(i as int, i + m) =~= q@);
    }
    true
}

/// Whether `q` occurs in `s`.
pub fn text_holds(s: &str, q: &str) -> (r: bool)
    ensures
        r == holds_text(s@, q@),
{
    let n = s.unicode_len();
    let m = q.unicode_len();
    if m > n {
        proof {
            assert forall|i: int| !occurs_at(s@, q@, i) by {}
        }
        return false;
    }
    let last = n - m;
    let mut i: usize = 0;
    loop
        invariant
            n == s@.len(),
            m == q@.len(),
            last == n - m,
            i <= last,
            forall|k: int| 0 <= k < i ==> !occurs_at(s@, q@, k),
        ensures
            forall|k: int| 0 <= k <= last ==> !occurs_at(s@, q@, k),
        decreases last - i,
    {
        if text_at(s, q, i) {
            return true;
        }
        if i == last {
            break;
        }
        i = i + 1;
    }
    proof {
        assert forall|k: int| !occurs_at(s@, q@, k) by {
            if 0 <= k && k + m <= n {
                assert(k <= last);
            }
        }
    }
    false
}

/// A copy of a set of identifiers.
fn copy_set(s: &HashSet<u128>) -> (r: HashSet<u128>)
    ensures
        r@ == s@,
{
    let members = set_members(s);
    let mut r: HashSet<u128> = HashSet::new();
    let mut k: usize = 0;
    while k < members.len()
        invariant
            k <= members@.len(),
            r@ == members@.take(k as int).to_set(),
        decreases members@.len() - k,
    {
        r.insert(members[k]);
        proof {
            let a = members@.take(k as int);
            let b = members@.take(k + 1);
            let m = members@[k as int];
            assert(b =~= a.push(m));
            assert forall|x: u128| #[trigger] b.to_set().contains(x) == a.to_set().insert(m).contains(x) by {
                if b.contains(x) {
                    let w = choose|w: int| 0 <= w < b.len() && b[w] == x;
                    if w < a.len() {
                        assert(a[w] == x);
                    }
                }
                if a.contains(x) {
                    let w = choose|w: int| 0 <= w < a.len() && a[w] == x;
                    assert(b[w] == x);
                }
                if x == m {
                    assert(b[k as int] == x);
                }
            }
            assert(b.to_set() =~= a.to_set().insert(m));
        }
        k = k + 1;
    }
    proof {
        assert(members@.take(members@.len() as int) =~= members@);
    }
    r
}

/// The identifiers among `rows[..k]` whose task's title, in lower case,
/// holds `q`.
pub open spec fn hits_upto(app: App, rows: Seq<u128>, q: Seq<char>, k: int) -> Seq<u128>
    decreases k,
{
    if k <= 0 {
        Seq::empty()
    } else {
        let prev = hits_upto(app, rows, q, k - 1);
        match lookup(views(app.tasks@), rows[k - 1]) {
            Some(t) => if holds_text(lowercase_of(t.title), q) {
                prev.push(rows[k - 1])
            } else {
                prev
            },
            None => prev,
        }
    }
}

impl App {
    /// The shown tasks, in tree order with every fold open, whose title in
    /// lower case holds `q`.
    pub open spec fn search_hits(&self, q: Seq<char>) -> Seq<u128> {
        hits_upto(*self, self.tree_rows(), q, self.tree_rows().len() as int)
    }

    /// `new` is `old` once the cursor is put on the current match: the folds
    /// of the search's start come back but for the ancestors of the match,
    /// and the cursor moves onto it. Without a current match nothing changes.
    pub open spec fn jumped(old: App, new: App) -> bool {
        match old.search {
            Some(s) => if s.match_idx < s.matches@.len() {
                let id = s.matches@[s.match_idx as int];
                let up = ancestors_up(views(old.tasks@), id, old.tasks@.len() as nat);
                let mid = App { collapsed: new.collapsed, ..old };
                &&& forall|x: u128| #[trigger] new.collapsed@.contains(x) == (
                    s.original_collapsed@.contains(x) && !up.contains(x))
                &&& App::navigated(mid, new, id)
            } else {
                new == old
            },
            None => new == old,
        }
    }

    /// `new` is `old` once the matches of the query are worked out again: an
    /// empty query has none; otherwise they are `search_hits` of the query in
    /// lower case, the current match stays where it was unless past the
    /// last, and the cursor jumps to it.
    pub open spec fn recomputed(old: App, new: App) -> bool {
        match old.search {
            None => new == old,
            Some(s) => {
                let t = new.search->0;
                let set = App { search: new.search, ..old };
                &&& new.search is Some
                &&& t.query == s.query
                &&& t.original_collapsed == s.original_collapsed
                &&& if s.query@.len() == 0 {
                    t.matches@.len() == 0 && t.match_idx == 0 && new == set
                } else {
                    let hits = old.search_hits(lowercase_of(s.query@));
                    &&& t.matches@ == hits
                    &&& t.match_idx == (if hits.len() == 0 {
                        0
                    } else if s.match_idx < hits.len() {
                        s.match_idx as int
                    } else {
                        hits.len() - 1
                    })
                    &&& App::jumped(set, new)
                }
            },
        }
    }

    /// `new` is `old` after a step to the next (`forward`) or previous match,
    /// wrapping around: without matches nothing changes.
    pub open spec fn stepped(old: App, new: App, forward: bool) -> bool {
        match old.search {
            None => new == old,
            Some(s) => if s.matches@.len() == 0 {
                new == old
            } else {
                let n = s.matches@.len() as int;
                let t = new.search->0;
                let set = App { search: new.search, ..old };
                &&& new.search is Some
                &&& t.query == s.query
                &&& t.matches == s.matches
                &&& t.original_collapsed == s.original_collapsed
                &&& t.match_idx == (if forward {
                    (s.match_idx + 1) % n
                } else if s.match_idx > 0 {
                    s.match_idx - 1
                } else {
                    n - 1
                })
                &&& App::jumped(set, new)
            },
        }
    }

    /// `new` is `old` with a search begun: an empty query, no matches, the
    /// current folds kept to come back to, and the search mode.
    pub open spec fn search_begun(old: App, new: App) -> bool {
        &&& new.search matches Some(s) && s.query@.len() == 0 && s.matches@.len() == 0 && s.match_idx == 0
            && s.original_collapsed@ == old.collapsed@
        &&& new == (App { search: new.search, mode: Mode::Search, ..old })
    }

    /// `new` is `old` with the search ended: the folds of its start come
    /// back, and the mode is the normal one.
    pub open spec fn search_cancelled(old: App, new: App) -> bool {
        match old.search {
            Some(s) => new == (App { search: None, collapsed: s.original_collapsed, mode: Mode::Normal, ..old }),
            None => new == (App { mode: Mode::Normal, ..old }),
        }
    }

    /// `new` is `old` with the query edited to `q` and the matches worked out
    /// again.
    pub open spec fn requeried(old: App, new: App, q: Seq<char>) -> bool {
        match old.search {
            None => new == old,
            Some(s) => exists|edited: App|
                {
                    &&& #[trigger] edited.search matches Some(u) && u.query@ == q && u.matches == s.matches
                        && u.match_idx == s.match_idx && u.original_collapsed == s.original_collapsed
                    &&& edited == (App { search: edited.search, ..old })
                    &&& App::recomputed(edited, new)
                },
        }
    }

    /// `new` is `old` with `c` typed into the query and the matches worked
    /// out again.
    pub open spec fn search_typed(old: App, new: App, c: char) -> bool {
        App::requeried(old, new, old.search->0.query@.push(c))
    }

    /// `new` is `old` with the last character of the query erased (if any)
    /// and the matches worked out again.
    pub open spec fn search_erased(old: App, new: App) -> bool {
        let q = old.search->0.query@;
        App::requeried(old, new, if q.len() > 0 { q.drop_last() } else { q })
    }

    /// Starts a search: an empty query, no matches, the current folds kept to
    /// come back to, and the search mode.
    pub fn begin_search(&mut self)
        ensures
            App::search_begun(*old(self), *final(self)),
    {
        let original = copy_set(&self.collapsed);
        self.search = Some(SearchState {
            query: String::new(),
            matches: Vec::new(),
            match_idx: 0,
            original_collapsed: original,
        });
        self.mode = Mode::Search;
    }

    /// Types `c` into the query and works the matches out again.
    pub fn search_push(&mut self, c: char)
        ensures
            App::search_typed(*old(self), *final(self), c),
    {
        match self.search.take() {
            Some(mut s) => {
                push_char(&mut s.query, c);
                self.search = Some(s);
            },
            None => {
                return;
            },
        }
        let ghost typed = *self;
        self.recompute_matches();
        proof {
            assert(App::recomputed(typed, *self));
        }
    }

    /// Erases the last character of the query and works the matches out
    /// again.
    pub fn search_pop(&mut self)
        ensures
            App::search_erased(*old(self), *final(self)),
    {
        match self.search.take() {
            Some(mut s) => {
                pop_char(&mut s.query);
                self.search = Some(s);
            },
            None => {
                return;
            },
        }
        let ghost erased = *self;
        self.recompute_matches();
        proof {
            assert(App::recomputed(erased, *self));
        }
    }

    /// Leaves the typing of the query; the matches stay for `n` and `N`.
    pub fn commit_search(&mut self)
        ensures
            *final(self) == (App { mode: Mode::Normal, ..*old(self) }),
    {
        self.mode = Mode::Normal;
    }

    /// Ends the search and brings back the folds of its start.
    pub fn cancel_search(&mut self)
        ensures
            App::search_cancelled(*old(self), *final(self)),
    {
        match self.search.take() {
            Some(s) => {
                self.collapsed = s.original_collapsed;
            },
            None => {},
        }
        self.mode = Mode::Normal;
    }

    /// Moves to the next match, wrapping around.
    pub fn search_next(&mut self)
        ensures
            App::stepped(*old(self), *final(self), true),
    {
        match self.search.take() {
            Some(mut s) => {
                let n = s.matches.len();
                if n == 0 {
                    self.search = Some(s);
                    return;
                }
                let i = s.match_idx;
                proof {
                    vstd::arithmetic::div_mod::lemma_add_mod_noop(i as int, 1, n as int);
                    if n > 1 {
                        vstd::arithmetic::div_mod::lemma_small_mod(1, n as nat);
                    }
                    vstd::arithmetic::div_mod::lemma_mod_bound(i as int, n as int);
                }
                s.match_idx = (i % n + 1) % n;
                proof {
                    if n == 1 {
                        let r = (i % n) as int;
                        let m = n as int;
                        let j = i as int;
                        assert((r + 1) % m == 0 && (j + 1) % m == 0) by (nonlinear_arith)
                            requires
                                m == 1,
                        ;
                    }
                }
                self.search = Some(s);
            },
            None => {
                return;
            },
        }
        self.jump_to_current_match();
    }

    /// Moves to the previous match, wrapping around.
    pub fn search_prev(&mut self)
        ensures
            App::stepped(*old(self), *final(self), false),
    {
        match self.search.take() {
            Some(mut s) => {
                let n = s.matches.len();
                if n == 0 {
                    self.search = Some(s);
                    return;
                }
                s.match_idx = if s.match_idx > 0 {
                    s.match_idx - 1
                } else {
                    n - 1
                };
                self.search = Some(s);
            },
            None => {
                return;
            },
        }
        self.jump_to_current_match();
    }

    /// The shown tasks, in tree order with every fold open, whose title in
    /// lower case holds `q`.
    fn hits_of(&self, q: &str) -> (r: Vec<u128>)
        ensures
            r@ == self.search_hits(q@),
    {
        let rows = self.dfs_visible_ids();
        let mut r: Vec<u128> = Vec::new();
        let mut k: usize = 0;
        while k < rows.len()
            invariant
                k <= rows@.len(),
                rows@ == self.tree_rows(),
                r@ == hits_upto(*self, rows@, q@, k as int),
            decreases rows@.len() - k,
        {
            let id = rows[k];
            match self.task_ref(id) {
                Some(t) => {
                    let low = lowercase(t.title.as_str());
                    if text_holds(low.as_str(), q) {
                        r.push(id);
                    }
                },
                None => {},
            }
            k = k + 1;
        }
        r
    }

    /// Works the matches out again from the query, and jumps to the current
    /// one.
    pub fn recompute_matches(&mut self)
        ensures
            App::recomputed(*old(self), *final(self)),
    {
        let query = match &self.search {
            Some(s) => lowercase(s.query.as_str()),
            None => {
                return;
            },
        };
        let empty = match &self.search {
            Some(s) => s.query.unicode_len() == 0,
            None => true,
        };
        let hits = if empty {
            Vec::new()
        } else {
            self.hits_of(query.as_str())
        };
        match self.search.take() {
            Some(mut s) => {
                let n = hits.len();
                s.match_idx = if n == 0 {
                    0
                } else if s.match_idx < n {
                    s.match_idx
                } else {
                    n - 1
                };
                s.matches = hits;
                self.search = Some(s);
            },
            None => {},
        }
        if !empty {
            self.jump_to_current_match();
        }
    }

    /// Brings back the folds of the search's start, opens the ancestors of
    /// the current match and puts the cursor on it.
    fn jump_to_current_match(&mut self)
        ensures
            App::jumped(*old(self), *final(self)),
    {
        let (id, original) = match &self.search {
            Some(s) => {
                if s.match_idx >= s.matches.len() {
                    return;
                }
                (s.matches[s.match_idx], copy_set(&s.original_collapsed))
            },
            None => {
                return;
            },
        };
        self.collapsed = original;
        self.unfold_ancestors(id);
        let ghost mid = *self;
        self.navigate_to_id(id);
        proof {
            assert(mid == (App { collapsed: self.collapsed, ..*old(self) }));
        }
    }
}

} // verus!
