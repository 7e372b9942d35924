//! The board view: which leaf tasks each column shows and in what order.

use vstd::prelude::*;

use crate::board::{App, Column, KanbanSort, column_status, same_text};
use crate::sorting::{is_stable_order, lemma_stable_order_unique, stable_order};
use crate::task::{Status, Task, TaskView, views};
use crate::tree::{full_ids, full_order, lemma_forest_present, lookup, order_key, order_key_of, tasks_by_ids};

verus! {

/// Whether the task `c` of `ts` is active: found, and Todo or Doing.
pub open spec fn active_in(ts: Seq<TaskView>, c: u128) -> bool {
    lookup(ts, c) matches Some(t) && (t.status == Status::Todo || t.status == Status::Doing)
}

/// Whether `t` is a leaf of `ts`: none of its children is active.
pub open spec fn leaf_in(ts: Seq<TaskView>, t: TaskView) -> bool {
    forall|j: int| 0 <= j < t.children.len() ==> !active_in(ts, #[trigger] t.children[j])
}

/// The leaves of `ts` among the first `k` tasks of `s`.
pub open spec fn leaves_upto(ts: Seq<TaskView>, s: Seq<TaskView>, k: int) -> Seq<TaskView>
    decreases k,
{
    if k <= 0 {
        Seq::empty()
    } else if leaf_in(ts, s[k - 1]) {
        leaves_upto(ts, s, k - 1).push(s[k - 1])
    } else {
        leaves_upto(ts, s, k - 1)
    }
}

/// A list that meets `p`, when there is one.
pub open spec fn some_list(p: spec_fn(Seq<TaskView>) -> bool) -> Seq<TaskView> {
    choose|r: Seq<TaskView>| #[trigger] p(r)
}

/// `s` rearranged so that position `i` holds `s[p[i]]`.
pub open spec fn permute(s: Seq<TaskView>, p: Seq<usize>) -> Seq<TaskView> {
    Seq::new(p.len(), |i: int| s[p[i] as int])
}

/// Last position at or before `i` of a transition into `Done`, or -1.
pub open spec fn last_done_upto(trs: Seq<crate::task::Transition>, i: int) -> int
    decreases i + 1,
    when i >= -1
{
    if i < 0 {
        -1
    } else if i < trs.len() && trs[i].to == Status::Done {
        i
    } else {
        last_done_upto(trs, i - 1)
    }
}

/// When the task was last completed, or its creation time when it never was.
pub open spec fn done_time(t: TaskView) -> i64 {
    let j = last_done_upto(t.transitions, t.transitions.len() - 1);
    if 0 <= j < t.transitions.len() {
        t.transitions[j].at
    } else {
        t.created_at
    }
}

/// Sort key putting the most recently completed task first.
pub open spec fn done_key(t: TaskView) -> u128 {
    (9223372036854775807int - done_time(t)) as u128
}

pub proof fn lemma_pos_from(s: Seq<u128>, x: u128, i: int)
    requires
        0 <= i,
    ensures
        -1 <= pos_from(s, x, i) < s.len(),
        pos_from(s, x, i) >= 0 ==> i <= pos_from(s, x, i) && s[pos_from(s, x, i)] == x,
        pos_from(s, x, i) == -1 ==> forall|j: int| i <= j < s.len() ==> s[j] != x,
    decreases s.len() - i,
{
    if i < s.len() && s[i] != x {
        lemma_pos_from(s, x, i + 1);
    }
}

/// Sort key of the Todo column: project key first, then tree position.
pub open spec fn todo_key(pk: u64, tree: usize) -> u128 {
    ((pk as int) * 18446744073709551616int + (tree as u64) as int) as u128
}

/// Position of `x` in `s` counting from `i`, or -1.
pub open spec fn pos_from(s: Seq<u128>, x: u128, i: int) -> int
    decreases s.len() - i,
    when 0 <= i
{
    if i >= s.len() {
        -1
    } else if s[i] == x {
        i
    } else {
        pos_from(s, x, i + 1)
    }
}

/// The identifiers of `order` that belong to a task of `s`, kept in order.
pub open spec fn present_in(order: Seq<u128>, s: Seq<TaskView>, k: int) -> Seq<u128>
    decreases k,
{
    if k <= 0 {
        Seq::empty()
    } else if exists|j: int| 0 <= j < s.len() && s[j].id == order[k - 1] {
        present_in(order, s, k - 1).push(order[k - 1])
    } else {
        present_in(order, s, k - 1)
    }
}

/// Smallest `created_at` (read as `u64`) among the first `k` tasks of project `proj`.
pub open spec fn min_age(s: Seq<TaskView>, proj: Seq<char>, k: int) -> Option<u64>
    decreases k,
{
    if k <= 0 {
        None
    } else {
        let rest = min_age(s, proj, k - 1);
        if s[k - 1].project == proj {
            let a = s[k - 1].created_at as u64;
            match rest {
                Some(m) => Some(if a < m { a } else { m }),
                None => Some(a),
            }
        } else {
            rest
        }
    }
}

/// Whether some Doing task without children belongs to project `p`.
pub open spec fn has_doing_leaf(ts: Seq<TaskView>, p: Seq<char>) -> bool {
    exists|i: int|
        0 <= i < ts.len() && ts[i].status == Status::Doing && ts[i].children.len() == 0
            && ts[i].project == p
}

/// Keeps the forced task, and otherwise the first task of each project that
/// has no Doing leaf and has not been seen yet.
pub open spec fn todo_pick(
    s: Seq<TaskView>,
    k: int,
    seen: Seq<Seq<char>>,
    ts: Seq<TaskView>,
    forced: Option<u128>,
) -> Seq<TaskView>
    decreases s.len() - k,
    when 0 <= k
{
    if k >= s.len() {
        Seq::empty()
    } else if forced == Some(s[k].id) {
        seq![s[k]] + todo_pick(s, k + 1, seen, ts, forced)
    } else if !has_doing_leaf(ts, s[k].project) && !seen.contains(s[k].project) {
        seq![s[k]] + todo_pick(s, k + 1, seen.push(s[k].project), ts, forced)
    } else {
        todo_pick(s, k + 1, seen, ts, forced)
    }
}

impl App {
    /// Leaf candidates of a column: the tasks of its tree order (ignoring the
    /// project filter) with no active (Todo or Doing) child.
    pub open spec fn board_candidates(&self, col: Column) -> Seq<TaskView> {
        let s = crate::board::tasks_of(views(self.tasks@), self.column_order(col));
        leaves_upto(views(self.tasks@), s, s.len() as int)
    }

    /// Tree position key of a task.
    pub open spec fn tree_key(&self, t: TaskView) -> usize {
        order_key(full_order(views(self.tasks@)), t.id)
    }

    /// Per-project key of the Todo ordering.
    pub open spec fn project_key(&self, s: Seq<TaskView>, t: TaskView) -> u64 {
        match self.kanban_sort {
            KanbanSort::Age => min_age(s, t.project, s.len() as int)->0,
            KanbanSort::Project => match self.slot_of(t.project) {
                Some(slot) => slot as u64,
                None => u64::MAX,
            },
        }
    }

    /// Projects seen before picking Todo tasks: the forced task's project, when
    /// that task is a Todo task without children.
    pub open spec fn forced_seen(&self) -> Seq<Seq<char>> {
        match self.forced_todo_task_id {
            Some(fid) => match self.find(fid) {
                Some(ft) => if ft.status == Status::Todo && ft.children.len() == 0 {
                    seq![ft.project]
                } else {
                    Seq::empty()
                },
                None => Seq::empty(),
            },
            None => Seq::empty(),
        }
    }

    /// Keys of the first ordering of the Doing column: tree position.
    pub open spec fn tree_keys(&self, c: Seq<TaskView>) -> Seq<u128> {
        Seq::new(c.len(), |i: int| self.tree_key(c[i]) as u128)
    }

    /// Keys of the second ordering of the Doing column: position in the
    /// explicit order, else after it by tree position (wrapping as `usize`).
    pub open spec fn doing_keys(&self, s1: Seq<TaskView>, ordered: Seq<u128>) -> Seq<u128> {
        Seq::new(
            s1.len(),
            |i: int|
                {
                    let q = pos_from(ordered, s1[i].id, 0);
                    if q >= 0 {
                        q as u128
                    } else {
                        (ordered.len() as usize).wrapping_add(self.tree_key(s1[i])) as u128
                    }
                },
        )
    }

    /// Keys of the Todo ordering: project key first, then tree position.
    pub open spec fn todo_keys(&self, c: Seq<TaskView>) -> Seq<u128> {
        Seq::new(c.len(), |i: int| todo_key(self.project_key(c, c[i]), self.tree_key(c[i])))
    }

    /// The Doing column after its first ordering, as the board shows it.
    pub open spec fn doing_result(&self, s1: Seq<TaskView>, r: Seq<TaskView>) -> bool {
        if self.doing_order@.len() == 0 {
            r == s1
        } else {
            let ordered = present_in(self.doing_order@, s1, self.doing_order@.len() as int);
            exists|p2: Seq<usize>|
                #[trigger] is_stable_order(self.doing_keys(s1, ordered), p2) && r == permute(s1, p2)
        }
    }

    /// The fields the board's content depends on, the others set to one fixed value.
    pub open spec fn board_core(&self) -> App {
        App {
            tasks: self.tasks,
            projects: self.projects,
            active_slots: self.active_slots,
            show_unc: self.show_unc,
            kanban_sort: self.kanban_sort,
            forced_todo_task_id: self.forced_todo_task_id,
            doing_order: self.doing_order,
            view_mode: self.view_mode,
            ..vstd::pervasive::arbitrary()
        }
    }

    /// The tasks the board shows in `col`, in display order.
    pub open spec fn board_list(&self, col: Column) -> Seq<TaskView> {
        let core = self.board_core();
        some_list(|r: Seq<TaskView>| core.board_spec(col, r))
    }

    /// Two boards that agree on the tasks, filters, sort, forced task and
    /// explicit Doing order show the same columns.
    pub proof fn lemma_board_spec_frame(a: &App, b: &App, col: Column)
        requires
            a.tasks == b.tasks,
            a.projects == b.projects,
            a.active_slots == b.active_slots,
            a.show_unc == b.show_unc,
            a.kanban_sort == b.kanban_sort,
            a.forced_todo_task_id == b.forced_todo_task_id,
            a.doing_order == b.doing_order,
        ensures
            forall|r: Seq<TaskView>| a.board_spec(col, r) == b.board_spec(col, r),
    {
        let c = a.board_candidates(col);
        assert(c == b.board_candidates(col));
        assert(a.tree_keys(c) =~= b.tree_keys(c));
        assert(a.todo_keys(c) =~= b.todo_keys(c));
        assert(a.forced_seen() == b.forced_seen());
        assert forall|s1: Seq<TaskView>, r: Seq<TaskView>| a.doing_result(s1, r) == b.doing_result(s1, r) by {
            let ordered = present_in(a.doing_order@, s1, a.doing_order@.len() as int);
            assert(a.doing_keys(s1, ordered) =~= b.doing_keys(s1, ordered));
        }
    }

    /// The tasks the board shows in `col`, in display order.
    pub open spec fn board_spec(&self, col: Column, r: Seq<TaskView>) -> bool {
        let c = self.board_candidates(col);
        match col {
            Column::Done => exists|p: Seq<usize>|
                #[trigger] is_stable_order(done_keys(c), p) && r == permute(c, p),
            Column::Doing => exists|p1: Seq<usize>|
                #[trigger] is_stable_order(self.tree_keys(c), p1) && self.doing_result(
                    permute(c, p1),
                    r,
                ),
            Column::Todo => exists|p: Seq<usize>|
                #[trigger] is_stable_order(self.todo_keys(c), p) && r == todo_pick(
                    permute(c, p),
                    0,
                    self.forced_seen(),
                    views(self.tasks@),
                    self.forced_todo_task_id,
                ),
        }
    }
}

/// Keys of the Done ordering.
pub open spec fn done_keys(c: Seq<TaskView>) -> Seq<u128> {
    Seq::new(c.len(), |i: int| done_key(c[i]))
}

/// `s` rearranged by the positions `p`.
fn apply_order<'a>(s: &Vec<&'a Task>, p: &Vec<usize>) -> (r: Vec<&'a Task>)
    requires
        forall|i: int| 0 <= i < p@.len() ==> p@[i] < s@.len(),
    ensures
        r@.len() == p@.len(),
        forall|i: int| 0 <= i < p@.len() ==> *(#[trigger] r@[i]) == *s@[p@[i] as int],
{
    let mut r: Vec<&'a Task> = Vec::new();
    let mut i: usize = 0;
    while i < p.len()
        invariant
            i <= p@.len(),
            forall|j: int| 0 <= j < p@.len() ==> p@[j] < s@.len(),
            r@.len() == i,
            forall|j: int| 0 <= j < i ==> *(#[trigger] r@[j]) == *s@[p@[j] as int],
        decreases p@.len() - i,
    {
        r.push(s[p[i]]);
        i = i + 1;
    }
    r
}

/// The view of a list of references as the tasks they point to.
pub open spec fn deref_all(s: Seq<&Task>) -> Seq<TaskView> {
    Seq::new(s.len(), |i: int| (*s[i])@)
}

/// When the task was last completed, or its creation time.
pub(crate) fn completion_time(t: &Task) -> (at: i64)
    ensures
        at == done_time(t@),
{
    let mut i: usize = t.transitions.len();
    while i > 0
        invariant
            i <= t@.transitions.len(),
            last_done_upto(t@.transitions, t@.transitions.len() - 1) == last_done_upto(
                t@.transitions,
                i - 1,
            ),
        decreases i,
    {
        if t.transitions[i - 1].to == Status::Done {
            return t.transitions[i - 1].at;
        }
        i = i - 1;
    }
    proof {
        assert(last_done_upto(t@.transitions, -1) == -1);
    }
    t.created_at
}

/// First position of `x` in `s`.
pub fn first_pos(s: &Vec<u128>, x: u128) -> (r: Option<usize>)
    ensures
        match r {
            Some(i) => i as int == pos_from(s@, x, 0),
            None => pos_from(s@, x, 0) == -1,
        },
{
    let mut i: usize = 0;
    while i < s.len()
        invariant
            i <= s@.len(),
            pos_from(s@, x, 0) == pos_from(s@, x, i as int),
        decreases s@.len() - i,
    {
        if s[i] == x {
            return Some(i);
        }
        i = i + 1;
    }
    None
}

/// Whether some Doing task without children belongs to project `p`.
pub(crate) fn any_doing_leaf(tasks: &Vec<Task>, p: &str) -> (r: bool)
    ensures
        r == has_doing_leaf(views(tasks@), p@),
{
    let mut i: usize = 0;
    while i < tasks.len()
        invariant
            i <= views(tasks@).len(),
            forall|j: int|
                0 <= j < i ==> !(views(tasks@)[j].status == Status::Doing && views(tasks@)[j].children.len() == 0
                    && views(tasks@)[j].project == p@),
        decreases views(tasks@).len() - i,
    {
        let t = &tasks[i];
        proof {
            assert(views(tasks@)[i as int] == tasks@[i as int]@);
        }
        if t.status == Status::Doing && t.children.len() == 0 && same_text(t.project.as_str(), p) {
            return true;
        }
        i = i + 1;
    }
    false
}

/// Whether `x` is among the texts of `v`.
fn contains_text(v: &Vec<String>, x: &str) -> (r: bool)
    ensures
        r == v@.map_values(|s: String| s@).contains(x@),
{
    let ghost m = v@.map_values(|s: String| s@);
    let mut i: usize = 0;
    while i < v.len()
        invariant
            i <= v@.len(),
            m == v@.map_values(|s: String| s@),
            forall|j: int| 0 <= j < i ==> m[j] != x@,
        decreases v@.len() - i,
    {
        if same_text(v[i].as_str(), x) {
            proof {
                assert(m[i as int] == x@);
            }
            return true;
        }
        i = i + 1;
    }
    false
}

impl App {
    /// The leaf tasks of a column, ignoring the project filter, in tree order.
    fn board_candidate_refs(&self, col: Column) -> (r: Vec<&Task>)
        ensures
            deref_all(r@) == self.board_candidates(col),
    {
        let ids = self.column_ids(col);
        proof {
            lemma_forest_present(views(self.tasks@), self.status_ids(column_status(col)));
        }
        let all = tasks_by_ids(&self.tasks, &ids);
        let ghost s = crate::board::tasks_of(views(self.tasks@), self.column_order(col));
        proof {
            assert(deref_all(all@) =~= s);
        }
        let mut cands: Vec<&Task> = Vec::new();
        let mut k: usize = 0;
        while k < all.len()
            invariant
                k <= all@.len(),
                deref_all(all@) == s,
                deref_all(cands@) =~= leaves_upto(views(self.tasks@), s, k as int),
            decreases all@.len() - k,
        {
            if !self.has_active_child(all[k]) {
                cands.push(all[k]);
            }
            k = k + 1;
        }
        cands
    }

    /// Whether some child of `t` is active (Todo or Doing).
    pub fn has_active_child(&self, t: &Task) -> (r: bool)
        ensures
            r == !leaf_in(views(self.tasks@), t@),
    {
        let mut j: usize = 0;
        while j < t.children.len()
            invariant
                j <= t.children@.len(),
                forall|i: int| 0 <= i < j ==> !active_in(views(self.tasks@), #[trigger] t.children@[i]),
            decreases t.children@.len() - j,
        {
            let active = match self.task_ref(t.children[j]) {
                Some(c) => c.status == Status::Todo || c.status == Status::Doing,
                None => false,
            };
            if active {
                proof {
                    assert(active_in(views(self.tasks@), t@.children[j as int]));
                }
                return true;
            }
            j = j + 1;
        }
        false
    }

    /// The project key of the Todo ordering for `t` among `c`.
    fn project_key_of(&self, c: &Vec<&Task>, t: &Task) -> (k: u64)
        requires
            exists|i: int| 0 <= i < c@.len() && (*c@[i])@ == t@,
        ensures
            k == self.project_key(deref_all(c@), t@),
    {
        match self.kanban_sort {
            KanbanSort::Age => {
                let ghost s = deref_all(c@);
                let mut m: Option<u64> = None;
                let mut j: usize = 0;
                while j < c.len()
                    invariant
                        j <= c@.len(),
                        s == deref_all(c@),
                        m == min_age(s, t@.project, j as int),
                    decreases c@.len() - j,
                {
                    if same_text(c[j].project.as_str(), t.project.as_str()) {
                        let a = c[j].created_at as u64;
                        m = match m {
                            Some(x) => Some(if a < x { a } else { x }),
                            None => Some(a),
                        };
                    }
                    j = j + 1;
                }
                proof {
                    let i = choose|i: int| 0 <= i < c@.len() && (*c@[i])@ == t@;
                    lemma_min_age_some(s, t@.project, c@.len() as int, i);
                }
                match m {
                    Some(x) => x,
                    None => 0,
                }
            },
            KanbanSort::Project => match self.slot_for_project(t.project.as_str()) {
                Some(slot) => slot as u64,
                None => u64::MAX,
            },
        }
    }

    /// The tasks the board shows in `col`, in display order: leaf tasks only;
    /// Done by completion time, newest first; Doing in tree order, then in the
    /// explicit order when one is set; Todo by project key then tree order,
    /// keeping the forced task and the first task of each project that has no
    /// Doing leaf.
    pub fn board_tasks_for(&self, col: Column) -> (r: Vec<&Task>)
        ensures
            self.board_spec(col, deref_all(r@)),
    {
        let cands = self.board_candidate_refs(col);
        let ghost c = deref_all(cands@);
        match col {
            Column::Done => {
                let mut keys: Vec<u128> = Vec::new();
                let mut i: usize = 0;
                while i < cands.len()
                    invariant
                        i <= cands@.len(),
                        c == deref_all(cands@),
                        keys@ =~= done_keys(c).subrange(0, i as int),
                    decreases cands@.len() - i,
                {
                    let at = completion_time(cands[i]);
                    keys.push((9223372036854775807i128 - at as i128) as u128);
                    i = i + 1;
                }
                proof {
                    assert(keys@ =~= done_keys(c));
                }
                let p = stable_order(&keys);
                let r = apply_order(&cands, &p);
                proof {
                    assert(deref_all(r@) =~= permute(c, p@));
                }
                r
            },
            Column::Doing => {
                let full = full_ids(&self.tasks);
                let mut keys: Vec<u128> = Vec::new();
                let mut i: usize = 0;
                while i < cands.len()
                    invariant
                        i <= cands@.len(),
                        c == deref_all(cands@),
                        full@ == full_order(views(self.tasks@)),
                        keys@ =~= self.tree_keys(c).subrange(0, i as int),
                    decreases cands@.len() - i,
                {
                    let d = order_key_of(&full, cands[i].id);
                    keys.push(d as u128);
                    i = i + 1;
                }
                proof {
                    assert(keys@ =~= self.tree_keys(c));
                }
                let p1 = stable_order(&keys);
                let s1 = apply_order(&cands, &p1);
                let ghost g1 = deref_all(s1@);
                proof {
                    assert(g1 =~= permute(c, p1@));
                }
                if self.doing_order.len() == 0 {
                    return s1;
                }
                let mut ordered: Vec<u128> = Vec::new();
                let mut k: usize = 0;
                while k < self.doing_order.len()
                    invariant
                        k <= self.doing_order@.len(),
                        g1 == deref_all(s1@),
                        ordered@ == present_in(self.doing_order@, g1, k as int),
                    decreases self.doing_order@.len() - k,
                {
                    let x = self.doing_order[k];
                    let mut found = false;
                    let mut j: usize = 0;
                    while j < s1.len()
                        invariant
                            j <= s1@.len(),
                            g1 == deref_all(s1@),
                            found == (exists|q: int| 0 <= q < j && g1[q].id == x),
                        decreases s1@.len() - j,
                    {
                        proof {
                            assert(g1[j as int] == (*s1@[j as int])@);
                        }
                        if s1[j].id == x {
                            found = true;
                        }
                        proof {
                            if !found {
                                assert forall|q: int| 0 <= q < j + 1 implies g1[q].id != x by {
                                    if q < j {
                                    } else {
                                        assert(g1[q] == (*s1@[q])@);
                                    }
                                }
                            }
                        }
                        j = j + 1;
                    }
                    if found {
                        ordered.push(x);
                    }
                    k = k + 1;
                }
                let mut keys2: Vec<u128> = Vec::new();
                let mut i2: usize = 0;
                while i2 < s1.len()
                    invariant
                        i2 <= s1@.len(),
                        g1 == deref_all(s1@),
                        full@ == full_order(views(self.tasks@)),
                        ordered@ == present_in(self.doing_order@, g1, self.doing_order@.len() as int),
                        keys2@ =~= self.doing_keys(g1, ordered@).subrange(0, i2 as int),
                    decreases s1@.len() - i2,
                {
                    let key = match first_pos(&ordered, s1[i2].id) {
                        Some(q) => q as u128,
                        None => ordered.len().wrapping_add(order_key_of(&full, s1[i2].id)) as u128,
                    };
                    keys2.push(key);
                    i2 = i2 + 1;
                }
                proof {
                    assert(keys2@ =~= self.doing_keys(g1, ordered@));
                }
                let p2 = stable_order(&keys2);
                let r = apply_order(&s1, &p2);
                proof {
                    assert(deref_all(r@) =~= permute(g1, p2@));
                    assert(self.doing_result(g1, deref_all(r@)));
                }
                r
            },
            Column::Todo => {
                let full = full_ids(&self.tasks);
                let mut keys: Vec<u128> = Vec::new();
                let mut i: usize = 0;
                while i < cands.len()
                    invariant
                        i <= cands@.len(),
                        c == deref_all(cands@),
                        full@ == full_order(views(self.tasks@)),
                        keys@ =~= self.todo_keys(c).subrange(0, i as int),
                    decreases cands@.len() - i,
                {
                    proof {
                        assert((*cands@[i as int])@ == c[i as int]);
                    }
                    let pk = self.project_key_of(&cands, cands[i]);
                    let d = order_key_of(&full, cands[i].id);
                    let key = (pk as u128) * 18446744073709551616u128 + ((d as u64) as u128);
                    keys.push(key);
                    i = i + 1;
                }
                proof {
                    assert(keys@ =~= self.todo_keys(c));
                }
                let p = stable_order(&keys);
                let sorted = apply_order(&cands, &p);
                let ghost g = deref_all(sorted@);
                proof {
                    assert(g =~= permute(c, p@));
                }
                let mut seen: Vec<String> = Vec::new();
                match self.forced_todo_task_id {
                    Some(fid) => match self.task_ref(fid) {
                        Some(ft) => {
                            if ft.status == Status::Todo && ft.children.len() == 0 {
                                seen.push(ft.project.clone());
                            }
                        },
                        None => {},
                    },
                    None => {},
                }
                proof {
                    assert(seen@.map_values(|s: String| s@) =~= self.forced_seen());
                }
                let mut out: Vec<&Task> = Vec::new();
                let mut k: usize = 0;
                while k < sorted.len()
                    invariant
                        k <= sorted@.len(),
                        g == deref_all(sorted@),
                        todo_pick(g, 0, self.forced_seen(), views(self.tasks@), self.forced_todo_task_id)
                            =~= deref_all(out@) + todo_pick(
                            g,
                            k as int,
                            seen@.map_values(|s: String| s@),
                            views(self.tasks@),
                            self.forced_todo_task_id,
                        ),
                    decreases sorted@.len() - k,
                {
                    let t = sorted[k];
                    let ghost seen_v = seen@.map_values(|s: String| s@);
                    let is_forced = match self.forced_todo_task_id {
                        Some(fid) => fid == t.id,
                        None => false,
                    };
                    if is_forced {
                        out.push(t);
                    } else if !any_doing_leaf(&self.tasks, t.project.as_str()) && !contains_text(
                        &seen,
                        t.project.as_str(),
                    ) {
                        seen.push(t.project.clone());
                        out.push(t);
                        proof {
                            assert(seen@.map_values(|s: String| s@) =~= seen_v.push(t@.project));
                        }
                    }
                    k = k + 1;
                }
                proof {
                    assert(todo_pick(g, k as int, seen@.map_values(|s: String| s@), views(self.tasks@), self.forced_todo_task_id) =~= Seq::<TaskView>::empty());
                }
                out
            },
        }
    }
}

pub proof fn lemma_min_age_some(s: Seq<TaskView>, proj: Seq<char>, k: int, i: int)
    requires
        0 <= i < k <= s.len(),
        s[i].project == proj,
    ensures
        min_age(s, proj, k) is Some,
    decreases k,
{
    if i < k - 1 {
        lemma_min_age_some(s, proj, k - 1, i);
    }
}

impl App {
    /// The board's content of a column is determined: the orderings it uses are
    /// stable sorts, and a stable sort has one outcome.
    pub proof fn lemma_board_unique(&self, col: Column, r1: Seq<TaskView>, r2: Seq<TaskView>)
        requires
            self.board_spec(col, r1),
            self.board_spec(col, r2),
        ensures
            r1 == r2,
    {
        let c = self.board_candidates(col);
        match col {
            Column::Done => {
                let p = choose|p: Seq<usize>| #[trigger] is_stable_order(done_keys(c), p) && r1 == permute(c, p);
                let q = choose|p: Seq<usize>| #[trigger] is_stable_order(done_keys(c), p) && r2 == permute(c, p);
                lemma_stable_order_unique(done_keys(c), p, q);
            },
            Column::Doing => {
                let p = choose|p1: Seq<usize>|
                    #[trigger] is_stable_order(self.tree_keys(c), p1) && self.doing_result(permute(c, p1), r1);
                let q = choose|p1: Seq<usize>|
                    #[trigger] is_stable_order(self.tree_keys(c), p1) && self.doing_result(permute(c, p1), r2);
                lemma_stable_order_unique(self.tree_keys(c), p, q);
                let s1 = permute(c, p);
                if self.doing_order@.len() != 0 {
                    let ordered = present_in(self.doing_order@, s1, self.doing_order@.len() as int);
                    let a = choose|p2: Seq<usize>|
                        #[trigger] is_stable_order(self.doing_keys(s1, ordered), p2) && r1 == permute(s1, p2);
                    let b = choose|p2: Seq<usize>|
                        #[trigger] is_stable_order(self.doing_keys(s1, ordered), p2) && r2 == permute(s1, p2);
                    lemma_stable_order_unique(self.doing_keys(s1, ordered), a, b);
                }
            },
            Column::Todo => {
                let p = choose|p: Seq<usize>|
                    #[trigger] is_stable_order(self.todo_keys(c), p) && r1 == todo_pick(
                        permute(c, p),
                        0,
                        self.forced_seen(),
                        views(self.tasks@),
                        self.forced_todo_task_id,
                    );
                let q = choose|p: Seq<usize>|
                    #[trigger] is_stable_order(self.todo_keys(c), p) && r2 == todo_pick(
                        permute(c, p),
                        0,
                        self.forced_seen(),
                        views(self.tasks@),
                        self.forced_todo_task_id,
                    );
                lemma_stable_order_unique(self.todo_keys(c), p, q);
            },
        }
    }

    /// The board's tasks of a column, as references.
    pub fn board_refs(&self, col: Column) -> (r: Vec<&Task>)
        ensures
            deref_all(r@) == self.board_list(col),
    {
        let r = self.board_tasks_for(col);
        proof {
            let core = self.board_core();
            App::lemma_board_spec_frame(self, &core, col);
            let x = self.board_list(col);
            let f = |l: Seq<TaskView>| core.board_spec(col, l);
            assert(core.board_spec(col, deref_all(r@)));
            assert(f(deref_all(r@)));
            assert(x == some_list(f));
            assert(core.board_spec(col, x));
            core.lemma_board_unique(col, x, deref_all(r@));
        }
        r
    }
}

} // verus!
