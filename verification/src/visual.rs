//! Visual (multi-select) mode: moving a run of siblings past its neighbour,
//! and deleting a selection.

use vstd::prelude::*;

use crate::board::{App, column_index};
use crate::edit::{roots_upto, update_first, with_children};
use crate::kanban::{lemma_pos_from, pos_from};
use crate::task::{Task, TaskView, views};
use crate::tree::{find_index, first_index, has_id, lemma_first_index, lookup, parent_id_of, parent_of};

verus! {

/// Position in `s` of each of `ids`.
pub open spec fn positions_in(s: Seq<u128>, ids: Seq<u128>) -> Seq<int> {
    Seq::new(ids.len(), |j: int| pos_from(s, ids[j], 0))
}

/// Least of `p[..k]`.
pub open spec fn least(p: Seq<int>, k: int) -> int
    decreases k,
{
    if k <= 1 {
        p[0]
    } else if p[k - 1] < least(p, k - 1) {
        p[k - 1]
    } else {
        least(p, k - 1)
    }
}

/// Greatest of `p[..k]`.
pub open spec fn greatest(p: Seq<int>, k: int) -> int
    decreases k,
{
    if k <= 1 {
        p[0]
    } else if p[k - 1] > greatest(p, k - 1) {
        p[k - 1]
    } else {
        greatest(p, k - 1)
    }
}

/// The first and last positions of `p` when its entries, sorted, are
/// consecutive positions (all found, none twice); `None` otherwise.
pub open spec fn run_of(p: Seq<int>) -> Option<(int, int)> {
    if p.len() == 0 {
        None
    } else if exists|j: int| 0 <= j < p.len() && p[j] < 0 {
        None
    } else if exists|i: int, j: int| 0 <= i < j < p.len() && p[i] == p[j] {
        None
    } else if greatest(p, p.len() as int) - least(p, p.len() as int) + 1 != p.len() {
        None
    } else {
        Some((least(p, p.len() as int), greatest(p, p.len() as int)))
    }
}

/// `s` with the entry at `from` taken out and put back at `to`.
pub open spec fn moved<T>(s: Seq<T>, from: int, to: int) -> Seq<T> {
    s.remove(from).insert(to, s[from])
}

/// Whether every one of `ids` has the parent of the first.
pub open spec fn share_parent(ts: Seq<TaskView>, ids: Seq<u128>) -> bool {
    forall|j: int| 0 <= j < ids.len() ==> parent_of(ts, #[trigger] ids[j]) == parent_of(ts, ids[0])
}

/// The siblings a run of `ids` is taken from: the children of their parent,
/// or the top-level tasks in list order.
pub open spec fn sibling_ids(ts: Seq<TaskView>, parent: Option<u128>) -> Seq<u128> {
    match parent {
        Some(pid) => match lookup(ts, pid) {
            Some(p) => p.children,
            None => Seq::empty(),
        },
        None => roots_upto(ts, ts.len() as int),
    }
}

/// The tasks once the run of siblings `ids` moved one place up (the
/// sibling above it goes below it), or `None` when they are no such run or
/// nothing is above them.
pub open spec fn shift_up_in(ts: Seq<TaskView>, ids: Seq<u128>) -> Option<Seq<TaskView>> {
    if ids.len() == 0 || !share_parent(ts, ids) {
        None
    } else {
        let cp = parent_of(ts, ids[0]);
        let sib = sibling_ids(ts, cp);
        match run_of(positions_in(sib, ids)) {
            None => None,
            Some((f, l)) => if f == 0 {
                None
            } else {
                match cp {
                    Some(pid) => Some(update_first(ts, pid, |t: TaskView| with_children(t, moved(t.children, f - 1, l)))),
                    None => Some(moved(ts, first_index(ts, sib[f - 1]), first_index(ts, sib[l]))),
                }
            },
        }
    }
}

/// The tasks once the run of siblings `ids` moved one place down (the
/// sibling below it goes above it), or `None` when they are no such run or
/// nothing is below them.
pub open spec fn shift_down_in(ts: Seq<TaskView>, ids: Seq<u128>) -> Option<Seq<TaskView>> {
    if ids.len() == 0 || !share_parent(ts, ids) {
        None
    } else {
        let cp = parent_of(ts, ids[0]);
        let sib = sibling_ids(ts, cp);
        match run_of(positions_in(sib, ids)) {
            None => None,
            Some((f, l)) => if l + 1 >= sib.len() {
                None
            } else {
                match cp {
                    Some(pid) => Some(update_first(ts, pid, |t: TaskView| with_children(t, moved(t.children, l + 1, f)))),
                    None => Some(moved(ts, first_index(ts, sib[l + 1]), first_index(ts, sib[f]))),
                }
            },
        }
    }
}

proof fn lemma_least_greatest(p: Seq<int>, k: int)
    requires
        1 <= k <= p.len(),
    ensures
        forall|j: int| 0 <= j < k ==> least(p, k) <= #[trigger] p[j] <= greatest(p, k),
        exists|j: int| 0 <= j < k && p[j] == least(p, k),
        exists|j: int| 0 <= j < k && p[j] == greatest(p, k),
    decreases k,
{
    if k > 1 {
        lemma_least_greatest(p, k - 1);
        if p[k - 1] < least(p, k - 1) {
            assert(p[k - 1] == least(p, k));
        } else {
            let w = choose|j: int| 0 <= j < k - 1 && p[j] == least(p, k - 1);
            assert(p[w] == least(p, k));
        }
        if p[k - 1] > greatest(p, k - 1) {
            assert(p[k - 1] == greatest(p, k));
        } else {
            let w = choose|j: int| 0 <= j < k - 1 && p[j] == greatest(p, k - 1);
            assert(p[w] == greatest(p, k));
        }
    } else {
        assert(p[0] == least(p, k));
        assert(p[0] == greatest(p, k));
    }
}

/// Every entry of `p` lies between its least and greatest, which are
/// entries.
pub proof fn lemma_least_greatest_pub(p: Seq<int>)
    requires
        p.len() >= 1,
    ensures
        forall|j: int| 0 <= j < p.len() ==> least(p, p.len() as int) <= #[trigger] p[j] <= greatest(p, p.len() as int),
        exists|j: int| 0 <= j < p.len() && p[j] == least(p, p.len() as int),
        exists|j: int| 0 <= j < p.len() && p[j] == greatest(p, p.len() as int),
{
    lemma_least_greatest(p, p.len() as int);
}

/// Takes the entry at `from` out of `v` and puts it back at `to`.
pub fn move_entry<T>(v: &mut Vec<T>, from: usize, to: usize)
    requires
        from < old(v)@.len(),
        to < old(v)@.len(),
    ensures
        final(v)@ == moved(old(v)@, from as int, to as int),
{
    let x = v.remove(from);
    v.insert(to, x);
}

/// Whether every one of `ids` has the parent of the first.
fn all_share_parent(tasks: &Vec<Task>, ids: &[u128]) -> (r: bool)
    requires
        ids@.len() > 0,
    ensures
        r == share_parent(views(tasks@), ids@),
{
    let cp = parent_id_of(tasks, ids[0]);
    let mut j: usize = 0;
    while j < ids.len()
        invariant
            j <= ids@.len(),
            ids@.len() > 0,
            cp == parent_of(views(tasks@), ids@[0]),
            forall|x: int| 0 <= x < j ==> parent_of(views(tasks@), #[trigger] ids@[x]) == cp,
        decreases ids@.len() - j,
    {
        let p = parent_id_of(tasks, ids[j]);
        let same = match (p, cp) {
            (Some(a), Some(b)) => a == b,
            (None, None) => true,
            _ => false,
        };
        if !same {
            return false;
        }
        j = j + 1;
    }
    true
}

/// The first and last positions in `sib` of the run `ids`, as `run_of` gives them.
fn find_run(sib: &Vec<u128>, ids: &[u128]) -> (r: Option<(usize, usize)>)
    ensures
        r matches Some((f, l)) ==> f <= l < sib@.len(),
        match r {
            Some((f, l)) => run_of(positions_in(sib@, ids@)) == Some((f as int, l as int)),
            None => run_of(positions_in(sib@, ids@)) is None,
        },
{
    let ghost p = positions_in(sib@, ids@);
    let n = ids.len();
    if n == 0 {
        return None;
    }
    let mut pos: Vec<usize> = Vec::new();
    let mut j: usize = 0;
    while j < n
        invariant
            j <= n,
            n == ids@.len(),
            p == positions_in(sib@, ids@),
            pos@.len() == j,
            forall|x: int| 0 <= x < j ==> #[trigger] pos@[x] as int == p[x],
            forall|x: int| 0 <= x < j ==> #[trigger] pos@[x] < sib@.len(),
        decreases n - j,
    {
        proof {
            lemma_pos_from(sib@, ids@[j as int], 0);
        }
        match crate::kanban::first_pos(sib, ids[j]) {
            Some(q) => pos.push(q),
            None => {
                proof {
                    assert(p[j as int] < 0);
                }
                return None;
            },
        }
        j = j + 1;
    }
    proof {
        assert forall|x: int| 0 <= x < p.len() implies p[x] >= 0 by {
            assert(pos@[x] as int == p[x]);
        }
    }
    let mut a: usize = 0;
    while a < n
        invariant
            a <= n,
            p == positions_in(sib@, ids@),
            forall|x: int| 0 <= x < p.len() ==> p[x] >= 0,
            n == pos@.len(),
            n == p.len(),
            forall|x: int| 0 <= x < n ==> #[trigger] pos@[x] as int == p[x],
            forall|x: int, y: int| 0 <= x < a && x < y < n ==> p[x] != p[y],
            forall|x: int| 0 <= x < n ==> #[trigger] pos@[x] < sib@.len(),
        decreases n - a,
    {
        let mut b: usize = a + 1;
        while b < n
            invariant
                a < n,
                a + 1 <= b <= n,
                p == positions_in(sib@, ids@),
                n == pos@.len(),
                n == p.len(),
                forall|x: int| 0 <= x < n ==> #[trigger] pos@[x] as int == p[x],
                forall|y: int| a < y < b ==> p[a as int] != p[y],
            decreases n - b,
        {
            if pos[a] == pos[b] {
                proof {
                    assert(p[a as int] == p[b as int]);
                }
                return None;
            }
            b = b + 1;
        }
        a = a + 1;
    }
    let mut lo: usize = pos[0];
    let mut hi: usize = pos[0];
    let mut k: usize = 1;
    while k < n
        invariant
            1 <= k <= n,
            p == positions_in(sib@, ids@),
            forall|x: int| 0 <= x < p.len() ==> p[x] >= 0,
            forall|x: int, y: int| 0 <= x < y < n ==> p[x] != p[y],
            forall|x: int| 0 <= x < n ==> #[trigger] pos@[x] < sib@.len(),
            lo <= hi,
            hi < sib@.len(),
            n == pos@.len(),
            n == p.len(),
            forall|x: int| 0 <= x < n ==> #[trigger] pos@[x] as int == p[x],
            lo as int == least(p, k as int),
            hi as int == greatest(p, k as int),
        decreases n - k,
    {
        if pos[k] < lo {
            lo = pos[k];
        }
        if pos[k] > hi {
            hi = pos[k];
        }
        k = k + 1;
    }
    proof {
        lemma_least_greatest(p, n as int);
    }
    proof {
        assert(pos@[0] as int == p[0]);
    }
    if hi - lo != n - 1 {
        return None;
    }
    Some((lo, hi))
}

/// The siblings of a run whose parent is `parent`.
fn siblings(tasks: &Vec<Task>, parent: Option<u128>) -> (r: Vec<u128>)
    ensures
        r@ == sibling_ids(views(tasks@), parent),
{
    match parent {
        Some(pid) => match find_index(tasks, pid) {
            Some(i) => {
                proof {
                    lemma_first_index(views(tasks@), pid);
                }
                let c = tasks[i].children.clone();
                proof {
                    assert(c@ =~= tasks@[i as int].children@);
                }
                c
            },
            None => Vec::new(),
        },
        None => {
            let mut roots: Vec<u128> = Vec::new();
            let mut k: usize = 0;
            while k < tasks.len()
                invariant
                    k <= tasks@.len(),
                    roots@ == roots_upto(views(tasks@), k as int),
                decreases tasks@.len() - k,
            {
                if tasks[k].parent_id.is_none() {
                    roots.push(tasks[k].id);
                }
                k = k + 1;
            }
            roots
        },
    }
}

/// Moves the run of siblings `ids` one place up; says whether it moved.
fn shift_up_among(tasks: &mut Vec<Task>, ids: &[u128]) -> (changed: bool)
    ensures
        changed == (shift_up_in(views(old(tasks)@), ids@) is Some),
        changed ==> views(final(tasks)@) == shift_up_in(views(old(tasks)@), ids@)->0,
        !changed ==> *final(tasks) == *old(tasks),
{
    let ghost ts = views(tasks@);
    if ids.len() == 0 {
        return false;
    }
    if !all_share_parent(tasks, ids) {
        return false;
    }
    let cp = parent_id_of(tasks, ids[0]);
    let sib = siblings(tasks, cp);
    let (f, l) = match find_run(&sib, ids) {
        Some(r) => r,
        None => {
            return false;
        },
    };
    if f == 0 {
        return false;
    }
    match cp {
        Some(pid) => match find_index(tasks, pid) {
            Some(k) => {
                proof {
                    lemma_first_index(ts, pid);
                }
                move_entry(&mut tasks[k].children, f - 1, l);
                proof {
                    assert(views(tasks@) =~= update_first(
                        ts,
                        pid,
                        |t: TaskView| with_children(t, moved(t.children, f - 1, l as int)),
                    ));
                }
            },
            None => {
                proof {
                    assert(sib@.len() == 0);
                }
                return false;
            },
        },
        None => {
            let prev = sib[f - 1];
            let last = sib[l];
            proof {
                crate::edit::lemma_ids_where_present(ts, |t: TaskView| t.parent_id is None, ts.len() as int);
                assert(has_id(ts, sib@[f - 1]));
                assert(has_id(ts, sib@[l as int]));
                lemma_first_index(ts, prev);
                lemma_first_index(ts, last);
            }
            let pi = match find_index(tasks, prev) {
                Some(i) => i,
                None => {
                    return false;
                },
            };
            let li = match find_index(tasks, last) {
                Some(i) => i,
                None => {
                    return false;
                },
            };
            move_entry(tasks, pi, li);
        },
    }
    true
}

/// Moves the run of siblings `ids` one place down; says whether it moved.
fn shift_down_among(tasks: &mut Vec<Task>, ids: &[u128]) -> (changed: bool)
    ensures
        changed == (shift_down_in(views(old(tasks)@), ids@) is Some),
        changed ==> views(final(tasks)@) == shift_down_in(views(old(tasks)@), ids@)->0,
        !changed ==> *final(tasks) == *old(tasks),
{
    let ghost ts = views(tasks@);
    if ids.len() == 0 {
        return false;
    }
    if !all_share_parent(tasks, ids) {
        return false;
    }
    let cp = parent_id_of(tasks, ids[0]);
    let sib = siblings(tasks, cp);
    let (f, l) = match find_run(&sib, ids) {
        Some(r) => r,
        None => {
            return false;
        },
    };
    if l + 1 >= sib.len() {
        return false;
    }
    match cp {
        Some(pid) => match find_index(tasks, pid) {
            Some(k) => {
                proof {
                    lemma_first_index(ts, pid);
                }
                move_entry(&mut tasks[k].children, l + 1, f);
                proof {
                    assert(views(tasks@) =~= update_first(
                        ts,
                        pid,
                        |t: TaskView| with_children(t, moved(t.children, l + 1, f as int)),
                    ));
                }
            },
            None => {
                proof {
                    assert(sib@.len() == 0);
                }
                return false;
            },
        },
        None => {
            let next = sib[l + 1];
            let first = sib[f];
            proof {
                crate::edit::lemma_ids_where_present(ts, |t: TaskView| t.parent_id is None, ts.len() as int);
                assert(has_id(ts, sib@[l + 1]));
                assert(has_id(ts, sib@[f as int]));
                lemma_first_index(ts, next);
                lemma_first_index(ts, first);
            }
            let ni = match find_index(tasks, next) {
                Some(i) => i,
                None => {
                    return false;
                },
            };
            let fi = match find_index(tasks, first) {
                Some(i) => i,
                None => {
                    return false;
                },
            };
            move_entry(tasks, ni, fi);
        },
    }
    true
}

impl App {
    /// `new` is `old` after a move of a run of siblings produced `shifted`
    /// (nothing when `None`): the cursor then follows its task.
    pub open spec fn shifted_app(old: App, new: App, shifted: Option<Seq<TaskView>>) -> bool {
        match shifted {
            None => new == old,
            Some(ts2) => {
                &&& views(new.tasks@) == ts2
                &&& new.cursor@ == match old.selected(old.focused_col) {
                    Some(cid) => App::followed(App { cursor: old.cursor, ..new }, old.focused_col, cid),
                    None => old.cursor@,
                }
                &&& new == (App { tasks: new.tasks, cursor: new.cursor, ..old })
            },
        }
    }

    /// What `visual_shift_up` makes of `old`: the state `new`.
    pub open spec fn visual_shift_up_done(old: App, new: App, ids: Seq<u128>) -> bool {
        &&& (App::shifted_app(old, new, shift_up_in(views(old.tasks@), ids)))
    }

    /// Moves the selected run of siblings `ids` one place up, past the
    /// sibling above it; the cursor follows its task.
    pub fn visual_shift_up(&mut self, ids: &[u128])
        ensures
            App::visual_shift_up_done(*old(self), *final(self), ids@),
    {
        let cursor_id = self.selected_task_id(self.focused_col);
        if !shift_up_among(&mut self.tasks, ids) {
            return;
        }
        match cursor_id {
            Some(cid) => self.follow_task(self.focused_col, cid),
            None => {},
        }
    }

    /// What `visual_shift_down` makes of `old`: the state `new`.
    pub open spec fn visual_shift_down_done(old: App, new: App, ids: Seq<u128>) -> bool {
        &&& (App::shifted_app(old, new, shift_down_in(views(old.tasks@), ids)))
    }

    /// Moves the selected run of siblings `ids` one place down, past the
    /// sibling below it; the cursor follows its task.
    pub fn visual_shift_down(&mut self, ids: &[u128])
        ensures
            App::visual_shift_down_done(*old(self), *final(self), ids@),
    {
        let cursor_id = self.selected_task_id(self.focused_col);
        if !shift_down_among(&mut self.tasks, ids) {
            return;
        }
        match cursor_id {
            Some(cid) => self.follow_task(self.focused_col, cid),
            None => {},
        }
    }
}

/// The tasks after each of `ids[..k]` still in the list was deleted in turn.
pub open spec fn delete_all(ts: Seq<TaskView>, ids: Seq<u128>, k: int) -> Seq<TaskView>
    decreases k,
{
    if k <= 0 {
        ts
    } else {
        let prev = delete_all(ts, ids, k - 1);
        if has_id(prev, ids[k - 1]) {
            crate::edit::delete_spec(prev, ids[k - 1])
        } else {
            prev
        }
    }
}

impl App {
    /// What `visual_delete` makes of `old`: the state `new`.
    pub open spec fn visual_delete_done(old: App, new: App, ids: Seq<u128>) -> bool {
        &&& (views(new.tasks@) == delete_all(views(old.tasks@), ids, ids.len() as int))
        &&& (new.status_message matches Some(m) && m@ == "Deleted "@ + crate::text::decimal(
            ids.len() as nat,
        ) + " tasks"@)
        &&& (exists|c: usize|
            new.cursor@ == new.clamp_all_of(
                #[trigger] old.cursor@.update(column_index(old.focused_col), c),
            ))
        &&& ((new == (App {
            tasks: new.tasks,
            cursor: new.cursor,
            status_message: new.status_message,
            ..old
        })))
    }

    /// Deletes every task of `ids` still in the list, in turn, then pulls
    /// the cursors back onto their lists and reports how many were asked for.
    pub fn visual_delete(&mut self, ids: Vec<u128>)
        ensures
            App::visual_delete_done(*old(self), *final(self), ids@),
    {
        let count = ids.len();
        let ghost ts = views(self.tasks@);
        let ghost fc = column_index(self.focused_col);
        proof {
            assert(self.cursor@ =~= old(self).cursor@.update(fc, self.cursor@[fc]));
        }
        let mut i: usize = 0;
        while i < ids.len()
            invariant
                i <= ids@.len(),
                fc == column_index(old(self).focused_col),
                views(self.tasks@) == delete_all(ts, ids@, i as int),
                ts == views(old(self).tasks@),
                exists|c: usize| self.cursor@ == #[trigger] old(self).cursor@.update(fc, c),
                (*self == (App {
                    tasks: self.tasks,
                    cursor: self.cursor,
                    status_message: self.status_message,
                    ..*old(self)
                })),
            decreases ids@.len() - i,
        {
            let id = ids[i];
            let ghost before = *self;
            if self.task_ref(id).is_some() {
                proof {
                    crate::tree::lemma_first_index(views(self.tasks@), id);
                }
                self.delete_task(id);
                proof {
                    let c0 = choose|c: usize| before.cursor@ == #[trigger] old(self).cursor@.update(fc, c);
                    assert(self.cursor@ =~= old(self).cursor@.update(fc, self.cursor@[fc]));
                }
            } else {
                proof {
                    crate::tree::lemma_first_index(views(self.tasks@), id);
                }
            }
            i = i + 1;
        }
        let ghost mid = *self;
        self.clamp_all_cursors();
        self.status_message = Some(crate::text::deleted_message(count));
        proof {
            App::lemma_view_frame(&mid, &*self);
            let c = choose|c: usize| mid.cursor@ == #[trigger] old(self).cursor@.update(fc, c);
            assert(self.cursor@ == self.clamp_all_of(old(self).cursor@.update(fc, c)));
        }
    }
}

} // verus!
