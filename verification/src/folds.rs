//! Folding the tree: folding everything, opening the path to a task, and
//! focusing on the first unfinished leaf of a root.

use vstd::prelude::*;

use crate::board::{App, ids_where};
use crate::keys::{KeyCode, KeyPress};
use crate::kanban::{lemma_pos_from, pos_from};
use crate::rows::{RowView, root_rows, row_views};
use crate::task::{Status, TaskView, views};
use crate::tree::{find_index, lemma_first_index, lookup, root_of, root_task_id};

verus! {

/// Whether `c` is a child that `first_leaf_of` steps into: found, passing
/// `ok` (shown), not Done.
pub open spec fn open_child(ts: Seq<TaskView>, ok: spec_fn(TaskView) -> bool, c: u128) -> bool {
    lookup(ts, c) matches Some(t) && ok(t) && t.status != Status::Done
}

/// Position of the first child among `kids[k..]` that `first_leaf_of` steps
/// into, or -1.
pub open spec fn open_child_from(ts: Seq<TaskView>, ok: spec_fn(TaskView) -> bool, kids: Seq<u128>, k: int) -> int
    decreases kids.len() - k,
    when 0 <= k
{
    if k >= kids.len() {
        -1
    } else if open_child(ts, ok, kids[k]) {
        k
    } else {
        open_child_from(ts, ok, kids, k + 1)
    }
}

/// The children of `id`, or none when it is not found.
pub open spec fn kids_of(ts: Seq<TaskView>, id: u128) -> Seq<u128> {
    match lookup(ts, id) {
        Some(t) => t.children,
        None => Seq::empty(),
    }
}

/// The task reached from `id` by stepping into the first child that passes
/// `ok` and is not Done, while there is one (at most `fuel` steps).
pub open spec fn leaf_below(ts: Seq<TaskView>, ok: spec_fn(TaskView) -> bool, id: u128, fuel: nat) -> u128
    decreases fuel,
{
    if fuel == 0 {
        id
    } else {
        let kids = kids_of(ts, id);
        let k = open_child_from(ts, ok, kids, 0);
        if 0 <= k < kids.len() {
            leaf_below(ts, ok, kids[k], (fuel - 1) as nat)
        } else {
            id
        }
    }
}

/// The task `id` and the parents above it, as `unfold_path_to` walks them: a
/// parent is added while the current task is found and has one (at most
/// `fuel` parents).
pub open spec fn path_up(ts: Seq<TaskView>, id: u128, fuel: nat) -> Seq<u128>
    decreases fuel,
{
    if fuel == 0 {
        seq![id]
    } else {
        match lookup(ts, id) {
            Some(t) => match t.parent_id {
                Some(p) => seq![id] + path_up(ts, p, (fuel - 1) as nat),
                None => seq![id],
            },
            None => seq![id],
        }
    }
}

/// The shown tasks without a parent, in list order, among the first `k`.
pub open spec fn top_level(ts: Seq<TaskView>, vis: Seq<u128>, k: int) -> Seq<u128>
    decreases k,
{
    if k <= 0 {
        Seq::empty()
    } else if vis.contains(ts[k - 1].id) && ts[k - 1].parent_id is None {
        top_level(ts, vis, k - 1).push(ts[k - 1].id)
    } else {
        top_level(ts, vis, k - 1)
    }
}

/// Position of the first of `rows[i..]` whose task is a leaf of `app`, or -1.
pub open spec fn leaf_row_from(app: App, rows: Seq<u128>, i: int) -> int
    decreases rows.len() - i,
    when 0 <= i
{
    if i >= rows.len() {
        -1
    } else if lookup(views(app.tasks@), rows[i]) matches Some(t) && app.leaf(t) {
        i
    } else {
        leaf_row_from(app, rows, i + 1)
    }
}

/// The nearest task above `id` that is among `rows` (at most `fuel` steps up).
pub open spec fn shown_ancestor(ts: Seq<TaskView>, rows: Seq<u128>, id: u128, fuel: nat) -> Option<u128>
    decreases fuel,
{
    if fuel == 0 {
        None
    } else {
        match lookup(ts, id) {
            None => None,
            Some(t) => match t.parent_id {
                None => None,
                Some(p) => if rows.contains(p) {
                    Some(p)
                } else {
                    shown_ancestor(ts, rows, p, (fuel - 1) as nat)
                },
            },
        }
    }
}

/// How many of `kids[..k]` are found and pass `ok`.
pub open spec fn kids_counted(ts: Seq<TaskView>, kids: Seq<u128>, ok: spec_fn(TaskView) -> bool, k: int) -> nat
    decreases k,
{
    if k <= 0 {
        0
    } else {
        kids_counted(ts, kids, ok, k - 1) + if lookup(ts, kids[k - 1]) matches Some(t) && ok(t) {
            1nat
        } else {
            0nat
        }
    }
}

/// The tasks above `id`, nearest first, as `unfold_ancestors` walks them.
pub open spec fn ancestors_up(ts: Seq<TaskView>, id: u128, fuel: nat) -> Seq<u128> {
    path_up(ts, id, fuel).drop_first()
}

/// The walk up from `id` starts at `id`.
proof fn lemma_path_up_head(ts: Seq<TaskView>, id: u128, fuel: nat)
    ensures
        path_up(ts, id, fuel).len() >= 1,
        path_up(ts, id, fuel)[0] == id,
        path_up(ts, id, fuel) =~= seq![id] + path_up(ts, id, fuel).drop_first(),
{
}

impl App {
    /// The tasks `fold_all` folds: the shown tasks that have children.
    pub open spec fn foldable(&self) -> Set<u128> {
        Set::new(
            |id: u128|
                exists|j: int|
                    0 <= j < self.tasks@.len() && self.tasks@[j]@.id == id && self.shown(self.tasks@[j]@)
                        && self.tasks@[j]@.children.len() > 0,
        )
    }

    /// Folds every shown task that has children.
    pub fn fold_all(&mut self)
        ensures
            final(self).collapsed@ == old(self).collapsed@.union(old(self).foldable()),
            *final(self) == (App { collapsed: final(self).collapsed, ..*old(self) }),
    {
        let ghost want = self.foldable();
        let mut k: usize = 0;
        while k < self.tasks.len()
            invariant
                k <= self.tasks@.len(),
                want == old(self).foldable(),
                *self == (App { collapsed: self.collapsed, ..*old(self) }),
                self.collapsed@ == old(self).collapsed@.union(
                    Set::new(
                        |id: u128|
                            exists|j: int|
                                0 <= j < k && self.tasks@[j]@.id == id && self.shown(self.tasks@[j]@)
                                    && self.tasks@[j]@.children.len() > 0,
                    ),
                ),
            decreases self.tasks@.len() - k,
        {
            let ghost before = self.collapsed@;
            let fold = self.task_visible(&self.tasks[k]) && self.tasks[k].children.len() > 0;
            if fold {
                let id = self.tasks[k].id;
                self.collapsed.insert(id);
            }
            proof {
                let s_old = Set::new(
                    |id: u128|
                        exists|j: int|
                            0 <= j < k && self.tasks@[j]@.id == id && self.shown(self.tasks@[j]@)
                                && self.tasks@[j]@.children.len() > 0,
                );
                let s_new = Set::new(
                    |id: u128|
                        exists|j: int|
                            0 <= j < k + 1 && self.tasks@[j]@.id == id && self.shown(self.tasks@[j]@)
                                && self.tasks@[j]@.children.len() > 0,
                );
                assert forall|id: u128| s_new.contains(id) == (s_old.contains(id) || (fold && id
                    == self.tasks@[k as int]@.id)) by {
                    if s_new.contains(id) {
                        let j = choose|j: int|
                            0 <= j < k + 1 && self.tasks@[j]@.id == id && self.shown(self.tasks@[j]@)
                                && self.tasks@[j]@.children.len() > 0;
                        if j < k {
                            assert(s_old.contains(id));
                        }
                    }
                    if fold && id == self.tasks@[k as int]@.id {
                        assert(s_new.contains(id));
                    }
                }
                assert(self.collapsed@ =~= old(self).collapsed@.union(s_new));
            }
            k = k + 1;
        }
        proof {
            assert(self.collapsed@ =~= old(self).collapsed@.union(old(self).foldable()));
        }
    }

    /// Unfolds everything.
    pub fn unfold_all(&mut self)
        ensures
            final(self).collapsed@ == Set::<u128>::empty(),
            *final(self) == (App { collapsed: final(self).collapsed, ..*old(self) }),
    {
        self.collapsed.clear();
    }

    /// Whether `t` is a root `fold_focus_global` can pick: shown, top-level
    /// and not Done.
    pub open spec fn open_root(&self, t: TaskView) -> bool {
        self.shown(t) && t.parent_id is None && t.status != Status::Done
    }

    /// The shown top-level tasks that are not Done, in list order.
    pub fn visible_roots(&self) -> (r: Vec<u128>)
        ensures
            r@ == ids_where(views(self.tasks@), |t: TaskView| self.open_root(t), views(self.tasks@).len() as int),
    {
        let ghost p = |t: TaskView| self.open_root(t);
        let mut r: Vec<u128> = Vec::new();
        let mut k: usize = 0;
        while k < self.tasks.len()
            invariant
                k <= views(self.tasks@).len(),
                p == (|t: TaskView| self.open_root(t)),
                r@ == ids_where(views(self.tasks@), p, k as int),
            decreases self.tasks@.len() - k,
        {
            let t = &self.tasks[k];
            if self.task_visible(t) && t.parent_id.is_none() && t.status != Status::Done {
                r.push(t.id);
            }
            k = k + 1;
        }
        r
    }

    /// The task reached from `id` by stepping into the first child that is
    /// shown and not Done, while there is one (at most `fuel` steps).
    pub open spec fn first_leaf(&self, id: u128, fuel: nat) -> u128 {
        leaf_below(views(self.tasks@), |t: TaskView| self.shown(t), id, fuel)
    }

    /// The first child of `id` that is shown and not Done, if any.
    fn first_open_child(&self, id: u128) -> (r: Option<u128>)
        ensures
            ({
                let kids = kids_of(views(self.tasks@), id);
                let k = open_child_from(views(self.tasks@), |t: TaskView| self.shown(t), kids, 0);
                match r {
                    Some(c) => 0 <= k < kids.len() && c == kids[k],
                    None => !(0 <= k < kids.len()),
                }
            }),
    {
        let ghost ts = views(self.tasks@);
        let ghost ok = |t: TaskView| self.shown(t);
        let i = match find_index(&self.tasks, id) {
            Some(i) => i,
            None => {
                proof {
                    lemma_first_index(ts, id);
                }
                return None;
            },
        };
        proof {
            lemma_first_index(ts, id);
        }
        let kids = &self.tasks[i].children;
        let ghost ks = kids@;
        proof {
            assert(lookup(ts, id) == Some(ts[i as int]));
            assert(ts[i as int].children == ks);
        }
        let mut k: usize = 0;
        while k < kids.len()
            invariant
                k <= ks.len(),
                ks == kids@,
                ts == views(self.tasks@),
                ok == (|t: TaskView| self.shown(t)),
                kids_of(ts, id) == ks,
                open_child_from(ts, ok, ks, 0) == open_child_from(ts, ok, ks, k as int),
            decreases ks.len() - k,
        {
            let c = kids[k];
            let open = match self.task_ref(c) {
                Some(t) => self.task_visible(t) && t.status != Status::Done,
                None => false,
            };
            if open {
                proof {
                    assert(open_child(ts, ok, c));
                    assert(open_child_from(ts, ok, ks, k as int) == k);
                }
                return Some(c);
            }
            k = k + 1;
        }
        None
    }

    /// The first unfinished leaf below `id`: stepping into the first child that
    /// is shown and not Done, while there is one.
    pub fn first_leaf_of(&self, id: u128) -> (r: u128)
        ensures
            r == self.first_leaf(id, self.tasks@.len() as nat),
    {
        let mut current = id;
        let mut fuel: usize = self.tasks.len();
        while fuel > 0
            invariant
                fuel <= self.tasks@.len(),
                self.first_leaf(id, self.tasks@.len() as nat) == leaf_below(
                    views(self.tasks@),
                    |t: TaskView| self.shown(t),
                    current,
                    fuel as nat,
                ),
            decreases fuel,
        {
            match self.first_open_child(current) {
                Some(c) => {
                    current = c;
                    fuel = fuel - 1;
                },
                None => {
                    return current;
                },
            }
        }
        current
    }

    /// Unfolds every task above `id`.
    pub fn unfold_ancestors(&mut self, id: u128)
        ensures
            forall|x: u128| #[trigger] final(self).collapsed@.contains(x) == (old(self).collapsed@.contains(x)
                && !ancestors_up(views(old(self).tasks@), id, old(self).tasks@.len() as nat).contains(x)),
            *final(self) == (App { collapsed: final(self).collapsed, ..*old(self) }),
    {
        let ghost ts = views(self.tasks@);
        let ghost path = path_up(ts, id, self.tasks@.len() as nat);
        let mut current = id;
        let mut fuel: usize = self.tasks.len();
        let ghost mut removed: Seq<u128> = Seq::empty();
        proof {
            lemma_path_up_head(ts, id, fuel as nat);
            assert(path =~= seq![id] + removed + path_up(ts, current, fuel as nat).drop_first());
        }
        loop
            invariant
                fuel <= self.tasks@.len(),
                ts == views(self.tasks@),
                *self == (App { collapsed: self.collapsed, ..*old(self) }),
                path == path_up(ts, id, old(self).tasks@.len() as nat),
                path == seq![id] + removed + path_up(ts, current, fuel as nat).drop_first(),
                forall|x: u128| #[trigger] self.collapsed@.contains(x) == (old(self).collapsed@.contains(x)
                    && !removed.contains(x)),
            ensures
                forall|x: u128| #[trigger] self.collapsed@.contains(x) == (old(self).collapsed@.contains(x)
                    && !path.drop_first().contains(x)),
                *self == (App { collapsed: self.collapsed, ..*old(self) }),
            decreases fuel,
        {
            let parent = match self.task_ref(current) {
                Some(t) => t.parent_id,
                None => None,
            };
            let p = match parent {
                Some(p) => p,
                None => {
                    proof {
                        assert(path.drop_first() =~= removed);
                    }
                    break;
                },
            };
            if fuel == 0 {
                proof {
                    assert(path.drop_first() =~= removed);
                }
                break;
            }
            proof {
                lemma_path_up_head(ts, p, (fuel - 1) as nat);
                assert(path_up(ts, current, fuel as nat) == seq![current] + path_up(ts, p, (fuel - 1) as nat));
                assert(path_up(ts, current, fuel as nat).drop_first() =~= seq![p] + path_up(ts, p, (fuel - 1) as nat).drop_first());
                assert(path =~= seq![id] + removed.push(p) + path_up(ts, p, (fuel - 1) as nat).drop_first());
            }
            let ghost before = self.collapsed@;
            self.collapsed.remove(&p);
            proof {
                let r_new = removed.push(p);
                assert forall|x: u128| #[trigger] self.collapsed@.contains(x) == (old(self).collapsed@.contains(x)
                    && !r_new.contains(x)) by {
                    if removed.contains(x) {
                        let w = choose|w: int| 0 <= w < removed.len() && removed[w] == x;
                        assert(r_new[w] == x);
                    }
                    if x == p {
                        assert(r_new[r_new.len() - 1] == p);
                    }
                    if r_new.contains(x) && x != p {
                        let w = choose|w: int| 0 <= w < r_new.len() && r_new[w] == x;
                        assert(w < r_new.len() - 1);
                        assert(removed[w] == x);
                    }
                }
                removed = r_new;
            }
            current = p;
            fuel = fuel - 1;
        }
    }

    /// Unfolds `id` and every task above it.
    pub fn unfold_path_to(&mut self, id: u128)
        ensures
            forall|x: u128| #[trigger] final(self).collapsed@.contains(x) == (old(self).collapsed@.contains(x)
                && !path_up(views(old(self).tasks@), id, old(self).tasks@.len() as nat).contains(x)),
            *final(self) == (App { collapsed: final(self).collapsed, ..*old(self) }),
    {
        let ghost path = path_up(views(self.tasks@), id, self.tasks@.len() as nat);
        self.collapsed.remove(&id);
        self.unfold_ancestors(id);
        proof {
            lemma_path_up_head(views(old(self).tasks@), id, old(self).tasks@.len() as nat);
            assert forall|x: u128| #[trigger] self.collapsed@.contains(x) == (old(self).collapsed@.contains(x)
                && !path.contains(x)) by {
                if path.contains(x) && x != id {
                    let w = choose|w: int| 0 <= w < path.len() && path[w] == x;
                    assert(path.drop_first()[w - 1] == x);
                }
                if path.drop_first().contains(x) {
                    let w = choose|w: int| 0 <= w < path.drop_first().len() && path.drop_first()[w] == x;
                    assert(path[w + 1] == x);
                }
                if x == id {
                    assert(path[0] == id);
                }
            }
        }
    }

    /// The tasks of the tree as far as the folds let them show, in preorder
    /// from the shown top-level tasks.
    pub open spec fn visible_rows(&self) -> Seq<u128> {
        let ts = views(self.tasks@);
        let vis = self.shown_all_ids();
        root_rows(ts, vis, self.collapsed@, top_level(ts, vis, ts.len() as int), 0).map_values(
            |r: RowView| r.id,
        )
    }

    /// The tasks of the tree as far as the folds let them show, in preorder
    /// from the shown top-level tasks.
    pub fn build_visible_rows(&self) -> (r: Vec<u128>)
        ensures
            r@ == self.visible_rows(),
    {
        let ghost ts = views(self.tasks@);
        let vis = crate::edit::shown_ids_vec(self);
        let mut roots: Vec<u128> = Vec::new();
        let mut k: usize = 0;
        while k < self.tasks.len()
            invariant
                k <= ts.len(),
                ts == views(self.tasks@),
                vis@ == self.shown_all_ids(),
                roots@ == top_level(ts, vis@, k as int),
            decreases ts.len() - k,
        {
            let t = &self.tasks[k];
            if crate::tree::contains_id(&vis, t.id) && t.parent_id.is_none() {
                roots.push(t.id);
            }
            k = k + 1;
        }
        let rows = self.rows_from(&vis, &roots);
        let mut ids: Vec<u128> = Vec::new();
        let mut j: usize = 0;
        while j < rows.len()
            invariant
                j <= rows@.len(),
                ids@.len() == j,
                forall|i: int| 0 <= i < j ==> ids@[i] == #[trigger] rows@[i].id,
            decreases rows@.len() - j,
        {
            ids.push(rows[j].id);
            j = j + 1;
        }
        proof {
            assert(ids@ =~= row_views(rows@).map_values(|r: RowView| r.id));
        }
        ids
    }

    /// The first leaf task (Todo or Doing, with no Todo or Doing child) of
    /// the tree with every fold open, in preorder.
    pub fn first_visible_leaf_id(&self) -> (r: Option<u128>)
        ensures
            ({
                let rows = self.tree_rows();
                let p = leaf_row_from(*self, rows, 0);
                match r {
                    Some(id) => 0 <= p < rows.len() && id == rows[p],
                    None => p == -1,
                }
            }),
    {
        let rows = self.dfs_visible_ids();
        let mut i: usize = 0;
        while i < rows.len()
            invariant
                i <= rows@.len(),
                rows@ == self.tree_rows(),
                leaf_row_from(*self, rows@, 0) == leaf_row_from(*self, rows@, i as int),
            decreases rows@.len() - i,
        {
            let id = rows[i];
            let leaf = match self.task_ref(id) {
                Some(t) => self.is_leaf_task(t),
                None => false,
            };
            if leaf {
                return Some(id);
            }
            i = i + 1;
        }
        None
    }

    /// The first unfinished leaf's row, marked as the next task: the leaf
    /// itself when `rows` shows it, else its nearest ancestor that `rows`
    /// shows (none when none does).
    pub open spec fn next_marker(&self, rows: Seq<u128>) -> Option<u128> {
        let tr = self.tree_rows();
        let p = leaf_row_from(*self, tr, 0);
        if 0 <= p < tr.len() {
            if rows.contains(tr[p]) {
                Some(tr[p])
            } else {
                shown_ancestor(views(self.tasks@), rows, tr[p], self.tasks@.len() as nat)
            }
        } else {
            None
        }
    }

    /// The row marked as the next task among `rows`: see `next_marker`.
    pub fn next_row_id(&self, rows: &Vec<u128>) -> (r: Option<u128>)
        ensures
            r == self.next_marker(rows@),
    {
        let leaf = match self.first_visible_leaf_id() {
            Some(l) => l,
            None => {
                return None;
            },
        };
        if crate::tree::contains_id(rows, leaf) {
            return Some(leaf);
        }
        let mut cur = leaf;
        let mut fuel: usize = self.tasks.len();
        while fuel > 0
            invariant
                fuel <= self.tasks@.len(),
                self.next_marker(rows@) == shown_ancestor(views(self.tasks@), rows@, cur, fuel as nat),
            decreases fuel,
        {
            let parent = match self.task_ref(cur) {
                Some(t) => t.parent_id,
                None => {
                    return None;
                },
            };
            match parent {
                None => {
                    return None;
                },
                Some(p) => {
                    if crate::tree::contains_id(rows, p) {
                        return Some(p);
                    }
                    cur = p;
                },
            }
            fuel = fuel - 1;
        }
        None
    }

    /// The shown children of task `id` that are Done, and all its shown
    /// children, when it has some (the progress dots of its row).
    pub fn child_progress(&self, id: u128) -> (r: Option<(usize, usize)>)
        ensures
            match self.find(id) {
                None => r is None,
                Some(t) => {
                    let ts = views(self.tasks@);
                    let total = kids_counted(ts, t.children, |c: TaskView| self.shown(c), t.children.len() as int);
                    let done = kids_counted(
                        ts,
                        t.children,
                        |c: TaskView| self.shown(c) && c.status == Status::Done,
                        t.children.len() as int,
                    );
                    if total > 0 {
                        r == Some((done as usize, total as usize))
                    } else {
                        r is None
                    }
                },
            },
    {
        let t = match self.task_ref(id) {
            Some(t) => t,
            None => {
                return None;
            },
        };
        let ghost ts = views(self.tasks@);
        let ghost all = |c: TaskView| self.shown(c);
        let ghost dn = |c: TaskView| self.shown(c) && c.status == Status::Done;
        let mut total: usize = 0;
        let mut done: usize = 0;
        let mut k: usize = 0;
        while k < t.children.len()
            invariant
                k <= t.children@.len(),
                ts == views(self.tasks@),
                all == (|c: TaskView| self.shown(c)),
                dn == (|c: TaskView| self.shown(c) && c.status == Status::Done),
                total == kids_counted(ts, t.children@, all, k as int),
                done == kids_counted(ts, t.children@, dn, k as int),
                total <= k,
                done <= k,
            decreases t.children@.len() - k,
        {
            match self.task_ref(t.children[k]) {
                Some(c) => {
                    if self.task_visible(c) {
                        total = total + 1;
                        if c.status == Status::Done {
                            done = done + 1;
                        }
                    }
                },
                None => {},
            }
            k = k + 1;
        }
        if total > 0 {
            Some((done, total))
        } else {
            None
        }
    }

    /// `new` is `old` with `folded` as the folded set, the path to `leaf`
    /// opened, the tree scrolled to two rows above `leaf` and the cursor moved
    /// onto `leaf`.
    pub open spec fn focused_on(old: App, new: App, folded: Set<u128>, leaf: u128) -> bool {
        let path = path_up(views(old.tasks@), leaf, old.tasks@.len() as nat);
        let mid = App { collapsed: new.collapsed, tui_scroll_offset: new.tui_scroll_offset, ..old };
        let p = pos_from(mid.visible_rows(), leaf, 0);
        &&& forall|x: u128| #[trigger] new.collapsed@.contains(x) == (folded.contains(x) && !path.contains(x))
        &&& new.tui_scroll_offset == (if p > 2 { p - 2 } else { 0 })
        &&& App::navigated(mid, new, leaf)
    }

    /// `new` is what `fold_focus_global` makes of `old`: with no open root
    /// nothing changes; otherwise everything is folded but the path to the
    /// first unfinished leaf of the first open root, and the cursor is there.
    pub open spec fn focus_global_done(old: App, new: App) -> bool {
        &&& old.open_roots().len() == 0 ==> new == old
        &&& old.open_roots().len() > 0 ==> App::focused_on(
            old,
            new,
            old.collapsed@.union(old.foldable()),
            old.first_leaf(old.open_roots()[0], old.tasks@.len() as nat),
        )
    }

    /// `new` is what `fold_focus_local` makes of `old`: with the cursor on no
    /// task nothing changes; otherwise everything is folded but the path to
    /// the first unfinished leaf of the root above the cursor, and the cursor
    /// is there.
    pub open spec fn focus_local_done(old: App, new: App) -> bool {
        &&& old.selected_root() is None ==> new == old
        &&& old.selected_root() matches Some(root) ==> App::focused_on(
            old,
            new,
            old.collapsed@.union(old.foldable()),
            old.first_leaf(root, old.tasks@.len() as nat),
        )
    }

    /// `new` is what `cycle_leaf_next` (`forward`) or `cycle_leaf_prev` makes
    /// of `old`: with no open root nothing changes; otherwise the root above
    /// the cursor is folded and the cursor goes to the first unfinished leaf
    /// of the next (previous) open root.
    pub open spec fn cycle_done(old: App, new: App, forward: bool) -> bool {
        &&& old.open_roots().len() == 0 ==> new == old
        &&& old.open_roots().len() > 0 ==> App::focused_on(
            old,
            new,
            old.cycle_target(forward).1,
            old.first_leaf(old.cycle_target(forward).0, old.tasks@.len() as nat),
        )
    }

    /// `new` is what the second key of a `z` chord makes of `old`: `g` focuses
    /// the first root, `l` the root above the cursor, `.` and `,` cycle to the
    /// next and previous root; any other key does nothing.
    pub open spec fn z_chord_done(old: App, new: App, key: KeyPress) -> bool {
        match key.code {
            KeyCode::Char(c) => if c == 'g' {
                App::focus_global_done(old, new)
            } else if c == 'l' {
                App::focus_local_done(old, new)
            } else if c == '.' {
                App::cycle_done(old, new, true)
            } else if c == ',' {
                App::cycle_done(old, new, false)
            } else {
                new == old
            },
            _ => new == old,
        }
    }

    /// Carries out the second key of a `z` chord.
    pub fn run_z_chord(&mut self, key: KeyPress)
        ensures
            App::z_chord_done(*old(self), *final(self), key),
    {
        match key.code {
            KeyCode::Char(c) => {
                if c == 'g' {
                    self.fold_focus_global();
                } else if c == 'l' {
                    self.fold_focus_local();
                } else if c == '.' {
                    self.cycle_leaf_next();
                } else if c == ',' {
                    self.cycle_leaf_prev();
                }
            },
            _ => {},
        }
    }

    /// The shown top-level tasks that are not Done, in list order.
    pub open spec fn open_roots(&self) -> Seq<u128> {
        ids_where(views(self.tasks@), |t: TaskView| self.open_root(t), views(self.tasks@).len() as int)
    }

    /// The root above the task under the cursor, if the cursor is on a task.
    pub open spec fn selected_root(&self) -> Option<u128> {
        match self.selected(self.focused_col) {
            Some(id) => Some(root_of(views(self.tasks@), id, self.tasks@.len() as nat)),
            None => None,
        }
    }

    /// Opens the path to `leaf` over the folded set, scrolls to two rows above
    /// it and moves the cursor onto it.
    fn focus_leaf(&mut self, leaf: u128)
        ensures
            App::focused_on(*old(self), *final(self), old(self).collapsed@, leaf),
    {
        self.unfold_path_to(leaf);
        let rows = self.build_visible_rows();
        let pos = match id_position(&rows, leaf) {
            Some(p) => p,
            None => 0,
        };
        let ghost before = *self;
        self.tui_scroll_offset = pos.saturating_sub(2);
        let ghost mid = *self;
        proof {
            lemma_pos_from(rows@, leaf, 0);
            assert((|t: TaskView| before.shown(t)) =~= (|t: TaskView| mid.shown(t)));
            assert(before.shown_all_ids() == mid.shown_all_ids());
            assert(mid.visible_rows() == rows@);
        }
        self.navigate_to_id(leaf);
        proof {
            assert(mid == (App { collapsed: self.collapsed, tui_scroll_offset: self.tui_scroll_offset, ..*old(self) }));
        }
    }

    /// Folds everything, then opens only the path to the first unfinished
    /// leaf of the first open root and moves the cursor there.
    pub fn fold_focus_global(&mut self)
        ensures
            App::focus_global_done(*old(self), *final(self)),
    {
        let roots = self.visible_roots();
        if roots.len() == 0 {
            return;
        }
        let first_root = roots[0];
        self.fold_all();
        let leaf = self.first_leaf_of(first_root);
        proof {
            assert((|t: TaskView| self.shown(t)) =~= (|t: TaskView| old(self).shown(t)));
        }
        let ghost folded = *self;
        self.focus_leaf(leaf);
        proof {
            assert(folded == (App { collapsed: folded.collapsed, ..*old(self) }));
        }
    }

    /// Folds everything, then opens only the path to the first unfinished
    /// leaf of the root above the cursor and moves the cursor there.
    pub fn fold_focus_local(&mut self)
        ensures
            App::focus_local_done(*old(self), *final(self)),
    {
        let root = match self.selected_task_id(self.focused_col) {
            Some(id) => root_task_id(&self.tasks, id),
            None => {
                return;
            },
        };
        self.fold_all();
        let leaf = self.first_leaf_of(root);
        proof {
            assert((|t: TaskView| self.shown(t)) =~= (|t: TaskView| old(self).shown(t)));
        }
        let ghost folded = *self;
        self.focus_leaf(leaf);
        proof {
            assert(folded == (App { collapsed: folded.collapsed, ..*old(self) }));
        }
    }

    /// The root `cycle_leaf_next` (or, with `forward` false, `cycle_leaf_prev`)
    /// moves to, and the folded set it starts from: the root after (before) the
    /// one above the cursor, wrapping around, with the current root folded; the
    /// first (last) open root when the cursor is on no task.
    pub open spec fn cycle_target(&self, forward: bool) -> (u128, Set<u128>) {
        let roots = self.open_roots();
        let n = roots.len() as int;
        match self.selected_root() {
            Some(root) => {
                let p = pos_from(roots, root, 0);
                let pos = if p >= 0 { p } else { 0 };
                let i = if forward { (pos + 1) % n } else { (pos + n - 1) % n };
                (roots[i], self.collapsed@.insert(root))
            },
            None => (if forward { roots[0] } else { roots[n - 1] }, self.collapsed@),
        }
    }

    /// The root that the cycle moves to, and the root above the cursor.
    fn cycle_pick(&self, roots: &Vec<u128>, forward: bool) -> (r: (u128, Option<u128>))
        requires
            roots@ == self.open_roots(),
            roots@.len() > 0,
        ensures
            r.0 == self.cycle_target(forward).0,
            r.1 == self.selected_root(),
    {
        let n = roots.len();
        match self.selected_task_id(self.focused_col) {
            Some(id) => {
                let root = root_task_id(&self.tasks, id);
                let pos = match id_position(roots, root) {
                    Some(p) => p,
                    None => 0,
                };
                proof {
                    lemma_pos_from(roots@, root, 0);
                    let m = n as int;
                    let q = pos as int;
                    if !forward {
                        if pos == 0 {
                            assert((q + m - 1) % m == m - 1) by (nonlinear_arith)
                                requires
                                    q == 0,
                                    m > 0,
                            ;
                        } else {
                            assert((q + m - 1) % m == q - 1) by (nonlinear_arith)
                                requires
                                    0 < q < m,
                            ;
                        }
                    }
                }
                let target = if forward {
                    roots[(pos + 1) % n]
                } else if pos == 0 {
                    roots[n - 1]
                } else {
                    roots[pos - 1]
                };
                (target, Some(root))
            },
            None => {
                let target = if forward {
                    roots[0]
                } else {
                    roots[n - 1]
                };
                (target, None)
            },
        }
    }

    /// Folds the root above the cursor and moves to the first unfinished leaf
    /// of the next (or, with `forward` false, the previous) open root.
    fn cycle_leaf(&mut self, forward: bool)
        ensures
            App::cycle_done(*old(self), *final(self), forward),
    {
        let roots = self.visible_roots();
        if roots.len() == 0 {
            return;
        }
        let (target, current) = self.cycle_pick(&roots, forward);
        match current {
            Some(root) => {
                self.collapsed.insert(root);
            },
            None => {},
        }
        let leaf = self.first_leaf_of(target);
        proof {
            assert((|t: TaskView| self.shown(t)) =~= (|t: TaskView| old(self).shown(t)));
            assert(self.collapsed@ == old(self).cycle_target(forward).1);
        }
        let ghost folded = *self;
        self.focus_leaf(leaf);
        proof {
            assert(folded == (App { collapsed: folded.collapsed, ..*old(self) }));
        }
    }

    /// Folds the root above the cursor and moves to the first unfinished leaf
    /// of the next open root (wrapping around).
    pub fn cycle_leaf_next(&mut self)
        ensures
            App::cycle_done(*old(self), *final(self), true),
    {
        self.cycle_leaf(true);
    }

    /// Folds the root above the cursor and moves to the first unfinished leaf
    /// of the previous open root (wrapping around).
    pub fn cycle_leaf_prev(&mut self)
        ensures
            App::cycle_done(*old(self), *final(self), false),
    {
        self.cycle_leaf(false);
    }
}

/// Position of `x` in `s`.
fn id_position(s: &Vec<u128>, x: u128) -> (r: Option<usize>)
    ensures
        match r {
            Some(p) => p as int == pos_from(s@, x, 0),
            None => pos_from(s@, x, 0) == -1,
        },
{
    let mut i: usize = 0;
    while i < s.len()
        invariant
            i <= s@.len(),
            pos_from(s@, x, 0) == pos_from(s@, x, i as int),
        decreases s@.len() - i,
    {
        if s[i] == x {
            return Some(i);
        }
        i = i + 1;
    }
    None
}

} // verus!
