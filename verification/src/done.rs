//! The list of Done tasks: filtered by project, sorted by completion date,
//! time taken, or project and title.

use vstd::prelude::*;

use crate::board::{project_slot, same_text, slot_from};
use crate::display::{completed_at, completion, elapsed_to_done, span_secs};
use crate::sorting::{is_stable_order, lemma_stable_order_unique, stable_order};
use crate::task::{Status, Task, TaskView, views};

verus! {

/// How the done list is sorted.
#[derive(Debug, Clone, Copy, PartialEq, Eq, Structural)]
pub enum SortBy {
    Date,
    Duration,
    Project,
}

/// Whether `a` comes before `b` in lexicographic order of characters (the
/// order of Rust's strings).
pub open spec fn text_less(a: Seq<char>, b: Seq<char>) -> bool
    decreases a.len(),
{
    if a.len() == 0 {
        b.len() > 0
    } else if b.len() == 0 {
        false
    } else if a[0] != b[0] {
        (a[0] as u32) < (b[0] as u32)
    } else {
        text_less(a.drop_first(), b.drop_first())
    }
}

/// Whether `a` comes before `b` when `s` characters of both are already equal.
pub open spec fn text_less_from(a: Seq<char>, b: Seq<char>, s: int) -> bool
    decreases a.len() - s,
    when 0 <= s
{
    if s >= a.len() {
        s < b.len()
    } else if s >= b.len() {
        false
    } else if a[s] != b[s] {
        (a[s] as u32) < (b[s] as u32)
    } else {
        text_less_from(a, b, s + 1)
    }
}

proof fn lemma_text_less_from(a: Seq<char>, b: Seq<char>, s: int)
    requires
        0 <= s <= a.len(),
        s <= b.len(),
    ensures
        text_less_from(a, b, s) == text_less(a.skip(s), b.skip(s)),
    decreases a.len() - s,
{
    if s < a.len() && s < b.len() && a[s] == b[s] {
        lemma_text_less_from(a, b, s + 1);
        assert(a.skip(s).drop_first() =~= a.skip(s + 1));
        assert(b.skip(s).drop_first() =~= b.skip(s + 1));
    }
}

/// Whether `a` comes before `b` in the order of Rust's strings.
pub fn str_less(a: &str, b: &str) -> (r: bool)
    ensures
        r == text_less(a@, b@),
{
    let na = a.unicode_len();
    let nb = b.unicode_len();
    let mut s: usize = 0;
    proof {
        lemma_text_less_from(a@, b@, 0);
        assert(a@.skip(0) =~= a@);
        assert(b@.skip(0) =~= b@);
    }
    while s < na && s < nb
        invariant
            na == a@.len(),
            nb == b@.len(),
            s <= na,
            s <= nb,
            text_less(a@, b@) == text_less_from(a@, b@, s as int),
        decreases na - s,
    {
        let x = a.get_char(s);
        let y = b.get_char(s);
        if x != y {
            return (x as u32) < (y as u32);
        }
        s = s + 1;
    }
    s < nb
}

/// Whether task `a` sorts before task `b` by project, then title.
pub open spec fn project_title_less(a: TaskView, b: TaskView) -> bool {
    text_less(a.project, b.project) || (a.project == b.project && text_less(a.title, b.title))
}

/// How many of `s[..k]` sort strictly before `t` by project and title.
pub open spec fn rank_below(s: Seq<TaskView>, t: TaskView, k: int) -> nat
    decreases k,
{
    if k <= 0 {
        0
    } else if project_title_less(s[k - 1], t) {
        rank_below(s, t, k - 1) + 1
    } else {
        rank_below(s, t, k - 1)
    }
}

proof fn lemma_rank_below(s: Seq<TaskView>, t: TaskView, k: int)
    requires
        0 <= k <= s.len(),
    ensures
        rank_below(s, t, k) <= k,
    decreases k,
{
    if k > 0 {
        lemma_rank_below(s, t, k - 1);
    }
}

/// Key that sorts a later time first, tasks without one last.
pub open spec fn newest_first_key(x: Option<i64>) -> u128 {
    match x {
        Some(v) => (9223372036854775808int - v) as u128,
        None => 18446744073709551617u128,
    }
}

/// The done list's ordering keys of the tasks `s` for the sort `by`.
pub open spec fn sort_keys(s: Seq<TaskView>, by: SortBy) -> Seq<u128> {
    Seq::new(
        s.len(),
        |i: int|
            match by {
                SortBy::Date => newest_first_key(completion(s[i])),
                SortBy::Duration => newest_first_key(
                    match completion(s[i]) {
                        Some(end) => Some(
                            if span_secs(s[i].created_at, end) > 0 {
                                span_secs(s[i].created_at, end) as i64
                            } else {
                                0i64
                            },
                        ),
                        None => None,
                    },
                ),
                SortBy::Project => rank_below(s, s[i], s.len() as int) as u128,
            },
    )
}

/// The Done tasks the filter shows, browsed with a cursor.
pub struct DoneApp {
    pub tasks: Vec<Task>,
    pub projects: [Option<String>; 10],
    pub active_slots: [bool; 10],
    pub show_unc: bool,
    pub cursor: usize,
    pub sort_by: SortBy,
}

impl DoneApp {
    /// The Done tasks of `tasks`, every filter on, sorted by date, the cursor on the first.
    pub fn new(tasks: Vec<Task>, projects: [Option<String>; 10]) -> (app: DoneApp)
        ensures
            app.tasks == tasks,
            app.projects == projects,
            forall|i: int| 0 <= i < 10 ==> #[trigger] app.active_slots@[i],
            app.show_unc,
            app.cursor == 0,
            app.sort_by == SortBy::Date,
    {
        DoneApp { tasks, projects, active_slots: [true; 10], show_unc: true, cursor: 0, sort_by: SortBy::Date }
    }

    /// The slot named `project`; the empty name has no slot.
    pub fn slot_for_project(&self, project: &str) -> (r: Option<usize>)
        ensures
            match r {
                Some(s) => project_slot(self.projects@, project@) == Some(s as int) && s < 10,
                None => project_slot(self.projects@, project@) is None,
            },
    {
        if project.unicode_len() == 0 {
            return None;
        }
        let mut i: usize = 0;
        while i < 10
            invariant
                i <= 10,
                project@.len() > 0,
                self.projects@.len() == 10,
                project_slot(self.projects@, project@) == slot_from(self.projects@, project@, i as int),
            decreases 10 - i,
        {
            match &self.projects[i] {
                Some(name) => {
                    if same_text(name.as_str(), project) {
                        return Some(i);
                    }
                },
                None => {},
            }
            i = i + 1;
        }
        None
    }

    /// Whether task `t`'s project is empty or names no slot.
    pub open spec fn unc(&self, t: TaskView) -> bool {
        t.project.len() == 0 || project_slot(self.projects@, t.project) is None
    }

    /// Whether `task` is uncategorised.
    pub fn is_unc(&self, task: &Task) -> (r: bool)
        ensures
            r == self.unc(task@),
    {
        task.project.as_str().unicode_len() == 0 || self.slot_for_project(task.project.as_str()).is_none()
    }

    /// Whether the done list shows `t`: a Done task whose project is switched on.
    pub open spec fn shows(&self, t: TaskView) -> bool {
        t.status == Status::Done && if self.unc(t) {
            self.show_unc
        } else {
            self.active_slots@[project_slot(self.projects@, t.project)->0]
        }
    }

    fn visible(&self, task: &Task) -> (r: bool)
        ensures
            r == self.shows(task@),
    {
        if task.status != Status::Done {
            return false;
        }
        if self.is_unc(task) {
            self.show_unc
        } else {
            match self.slot_for_project(task.project.as_str()) {
                Some(s) => self.active_slots[s],
                None => false,
            }
        }
    }

    /// The shown tasks in list order.
    pub open spec fn shown_tasks(&self) -> Seq<TaskView> {
        crate::archive::tasks_where(views(self.tasks@), |t: TaskView| self.shows(t), self.tasks@.len() as int)
    }

    /// The shown tasks in the order of the current sort (a stable sort).
    pub open spec fn done_list(&self) -> Seq<TaskView> {
        let s = self.shown_tasks();
        let keys = sort_keys(s, self.sort_by);
        let p = choose|p: Seq<usize>| is_stable_order(keys, p);
        Seq::new(p.len(), |i: int| s[p[i] as int])
    }

    /// The shown Done tasks, sorted: newest completion first, longest time
    /// taken first, or by project and title.
    pub fn done_tasks(&self) -> (r: Vec<&Task>)
        ensures
            crate::kanban::deref_all(r@) == self.done_list(),
    {
        let ghost p = |t: TaskView| self.shows(t);
        let mut shown: Vec<&Task> = Vec::new();
        let mut k: usize = 0;
        while k < self.tasks.len()
            invariant
                k <= self.tasks@.len(),
                p == (|t: TaskView| self.shows(t)),
                crate::kanban::deref_all(shown@) == crate::archive::tasks_where(views(self.tasks@), p, k as int),
            decreases self.tasks@.len() - k,
        {
            if self.visible(&self.tasks[k]) {
                let ghost before = crate::kanban::deref_all(shown@);
                shown.push(&self.tasks[k]);
                proof {
                    assert(crate::kanban::deref_all(shown@) =~= before.push(self.tasks@[k as int]@));
                }
            }
            k = k + 1;
        }
        let ghost s = crate::kanban::deref_all(shown@);
        let ghost kv = sort_keys(s, self.sort_by);
        let n = shown.len();
        let mut keys: Vec<u128> = Vec::new();
        let mut i: usize = 0;
        while i < n
            invariant
                i <= n,
                n == shown@.len(),
                s == crate::kanban::deref_all(shown@),
                kv == sort_keys(s, self.sort_by),
                keys@.len() == i,
                forall|j: int| 0 <= j < i ==> #[trigger] keys@[j] == kv[j],
            decreases n - i,
        {
            let t = shown[i];
            proof {
                assert(s[i as int] == t@);
            }
            let key: u128 = match self.sort_by {
                SortBy::Date => match completed_at(t) {
                    Some(v) => (9223372036854775808i128 - v as i128) as u128,
                    None => 18446744073709551617u128,
                },
                SortBy::Duration => match elapsed_to_done(t) {
                    Some(v) => (9223372036854775808i128 - v as i128) as u128,
                    None => 18446744073709551617u128,
                },
                SortBy::Project => {
                    let mut below: u128 = 0;
                    let mut j: usize = 0;
                    while j < n
                        invariant
                            j <= n,
                            i < n,
                            n == shown@.len(),
                            s == crate::kanban::deref_all(shown@),
                            s[i as int] == t@,
                            below == rank_below(s, t@, j as int),
                            below <= j,
                        decreases n - j,
                    {
                        let u = shown[j];
                        proof {
                            assert(s[j as int] == u@);
                            lemma_rank_below(s, t@, j as int);
                        }
                        let less = str_less(u.project.as_str(), t.project.as_str()) || (same_text(
                            u.project.as_str(),
                            t.project.as_str(),
                        ) && str_less(u.title.as_str(), t.title.as_str()));
                        if less {
                            below = below + 1;
                        }
                        j = j + 1;
                    }
                    below
                },
            };
            keys.push(key);
            i = i + 1;
        }
        proof {
            assert(keys@ =~= kv);
        }
        let order = stable_order(&keys);
        proof {
            let q = choose|q: Seq<usize>| is_stable_order(kv, q);
            lemma_stable_order_unique(kv, order@, q);
        }
        let mut r: Vec<&Task> = Vec::new();
        let mut i: usize = 0;
        while i < order.len()
            invariant
                i <= order@.len(),
                forall|x: int| 0 <= x < order@.len() ==> #[trigger] order@[x] < shown@.len(),
                is_stable_order(keys@, order@),
                keys@.len() == shown@.len(),
                s == crate::kanban::deref_all(shown@),
                crate::kanban::deref_all(r@) == Seq::new(i as nat, |x: int| s[order@[x] as int]),
            decreases order@.len() - i,
        {
            let at = order[i];
            let ghost before = crate::kanban::deref_all(r@);
            r.push(shown[at]);
            proof {
                assert(s[at as int] == (*shown@[at as int])@);
                assert(crate::kanban::deref_all(r@) =~= before.push(s[at as int]));
            }
            i = i + 1;
            proof {
                assert(crate::kanban::deref_all(r@) =~= Seq::new(i as nat, |x: int| s[order@[x] as int]));
            }
        }
        r
    }

    /// Moves the cursor one row up, stopping at the first.
    pub fn move_up(&mut self)
        ensures
            final(self).cursor == (if old(self).cursor > 0 { old(self).cursor - 1 } else { 0 }),
            (*final(self) == (DoneApp { cursor: final(self).cursor, ..*old(self) })),
    {
        if self.cursor > 0 {
            self.cursor = self.cursor - 1;
        }
    }

    /// Moves the cursor one row down, stopping at the last.
    pub fn move_down(&mut self)
        ensures
            final(self).cursor == (if old(self).cursor + 1 < old(self).done_list().len() {
                old(self).cursor + 1
            } else {
                old(self).cursor as int
            }),
            (*final(self) == (DoneApp { cursor: final(self).cursor, ..*old(self) })),
    {
        let len = self.done_tasks().len();
        let max = if len > 0 {
            len - 1
        } else {
            0
        };
        if self.cursor < max {
            self.cursor = self.cursor + 1;
        }
    }

    /// The cursor pulled back onto the list.
    pub open spec fn clamped_cursor(&self) -> usize {
        let len = self.done_list().len();
        if len == 0 {
            0
        } else if self.cursor >= len {
            (len - 1) as usize
        } else {
            self.cursor
        }
    }

    fn clamp(&mut self)
        ensures
            (*final(self) == (DoneApp { cursor: old(self).clamped_cursor(), ..*old(self) })),
    {
        let len = self.done_tasks().len();
        if len == 0 {
            self.cursor = 0;
        } else if self.cursor >= len {
            self.cursor = len - 1;
        }
    }

    /// Switches slot `slot` on or off, when it is named.
    pub fn toggle_slot(&mut self, slot: usize)
        requires
            slot < 10,
        ensures
            ({
                let mid = if old(self).projects@[slot as int] is Some {
                    DoneApp {
                        active_slots: final(self).active_slots,
                        cursor: old(self).cursor,
                        ..*old(self)
                    }
                } else {
                    *old(self)
                };
                &&& final(self).active_slots@ == (if old(self).projects@[slot as int] is Some {
                    old(self).active_slots@.update(slot as int, !old(self).active_slots@[slot as int])
                } else {
                    old(self).active_slots@
                })
                &&& *final(self) == (DoneApp { cursor: mid.clamped_cursor(), ..mid })
            }),
    {
        if self.projects[slot].is_some() {
            self.active_slots[slot] = !self.active_slots[slot];
        }
        self.clamp();
    }

    /// Switches the uncategorised tasks on or off.
    pub fn toggle_unc(&mut self)
        ensures
            ({
                let mid = DoneApp { show_unc: !old(self).show_unc, ..*old(self) };
                *final(self) == (DoneApp { cursor: mid.clamped_cursor(), ..mid })
            }),
    {
        self.show_unc = !self.show_unc;
        self.clamp();
    }

    /// Moves to the next sort: date, time taken, project, date again.
    pub fn cycle_sort(&mut self)
        ensures
            ({
                let mid = DoneApp {
                    sort_by: match old(self).sort_by {
                        SortBy::Date => SortBy::Duration,
                        SortBy::Duration => SortBy::Project,
                        SortBy::Project => SortBy::Date,
                    },
                    ..*old(self)
                };
                *final(self) == (DoneApp { cursor: mid.clamped_cursor(), ..mid })
            }),
    {
        self.sort_by = match self.sort_by {
            SortBy::Date => SortBy::Duration,
            SortBy::Duration => SortBy::Project,
            SortBy::Project => SortBy::Date,
        };
        self.clamp();
    }
}

} // verus!
