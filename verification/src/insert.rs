//! Adding tasks: where a new task goes in the list and among its siblings,
//! and the insert and edit prompts.

use vstd::prelude::*;

use crate::board::{App, Column, EditState, InsertPosition, InsertState, Mode, status_column, column_of_status};
use crate::edit::{update_first, with_children};
use crate::kanban::pos_from;
use crate::outside::now_millis;
use crate::status::{propagate_status_up, propagate_up};
use crate::task::{Status, Task, TaskView, views};
use crate::text::{trim_text, trimmed};
use crate::tree::{find_index, first_index, has_id, lemma_first_index, lemma_index_from, lookup, parent_of};
use crate::kanban::deref_all;

verus! {

/// Index of the first task, from `i` on, whose parent is `pid`; the length
/// of the list when there is none.
pub open spec fn first_child_index(ts: Seq<TaskView>, pid: u128, i: int) -> int
    decreases ts.len() - i,
    when 0 <= i
{
    if i >= ts.len() {
        ts.len() as int
    } else if ts[i].parent_id == Some(pid) {
        i
    } else {
        first_child_index(ts, pid, i + 1)
    }
}

/// The index just after the first task `id`, or the end of the list.
pub open spec fn after_index(ts: Seq<TaskView>, id: u128) -> int {
    let i = first_index(ts, id);
    if i >= 0 {
        i + 1
    } else {
        ts.len() as int
    }
}

/// Where a new top-level task goes in the list.
pub open spec fn root_insert_index(ts: Seq<TaskView>, pos: InsertPosition) -> int {
    match pos {
        InsertPosition::AtBeginning => 0,
        InsertPosition::AfterSibling(a) => after_index(ts, a),
        InsertPosition::AfterParent(_) => ts.len() as int,
    }
}

/// Where a new child of `pid` goes in the list.
pub open spec fn child_insert_index(ts: Seq<TaskView>, pid: u128, pos: InsertPosition) -> int {
    match pos {
        InsertPosition::AtBeginning => first_child_index(ts, pid, 0),
        InsertPosition::AfterSibling(a) => after_index(ts, a),
        InsertPosition::AfterParent(p) => after_index(ts, p),
    }
}

/// Where a new child goes among the children of `pid`.
pub open spec fn child_slot(ts: Seq<TaskView>, pid: u128, pos: InsertPosition) -> int {
    match pos {
        InsertPosition::AtBeginning => 0,
        InsertPosition::AfterSibling(a) => match lookup(ts, pid) {
            Some(p) => {
                let q = pos_from(p.children, a, 0);
                if q >= 0 {
                    q + 1
                } else {
                    p.children.len() as int
                }
            },
            None => 0,
        },
        InsertPosition::AfterParent(_) => 0,
    }
}

/// The tasks once `t` is added at `pos`: top-level tasks go into the list
/// only; a child also joins its parent's children.
pub open spec fn with_new_task(ts: Seq<TaskView>, t: TaskView, pos: InsertPosition) -> Seq<TaskView> {
    match t.parent_id {
        None => ts.insert(root_insert_index(ts, pos), t),
        Some(pid) => {
            let c = child_slot(ts, pid, pos);
            update_first(
                ts.insert(child_insert_index(ts, pid, pos), t),
                pid,
                |x: TaskView| with_children(x, x.children.insert(c, t.id)),
            )
        },
    }
}

/// Adding a task with another identifier leaves the lookup of `id` alone.
pub proof fn lemma_lookup_insert(ts: Seq<TaskView>, k: int, t: TaskView, id: u128)
    requires
        0 <= k <= ts.len(),
        t.id != id,
    ensures
        lookup(ts.insert(k, t), id) == lookup(ts, id),
        first_index(ts, id) >= 0 ==> first_index(ts.insert(k, t), id) == (if first_index(ts, id) < k {
            first_index(ts, id)
        } else {
            first_index(ts, id) + 1
        }),
{
    let s2 = ts.insert(k, t);
    lemma_first_index(ts, id);
    lemma_first_index(s2, id);
    let i = first_index(ts, id);
    let j = first_index(s2, id);
    if i >= 0 {
        let w = if i < k { i } else { i + 1 };
        assert(s2[w].id == id);
        if j < w {
            if j < k {
                assert(ts[j] == s2[j]);
            } else {
                assert(ts[j - 1] == s2[j]);
            }
        }
        assert(j <= w);
        if j < w {
            assert(false);
        }
    } else {
        if j >= 0 {
            if j < k {
                assert(ts[j] == s2[j]);
            } else if j > k {
                assert(ts[j - 1] == s2[j]);
            }
        }
    }
}

/// Position of the first task from `i` on whose parent is `pid`.
fn find_first_child(tasks: &Vec<Task>, pid: u128) -> (r: usize)
    ensures
        r as int == first_child_index(views(tasks@), pid, 0),
{
    let mut i: usize = 0;
    while i < tasks.len()
        invariant
            i <= tasks@.len(),
            first_child_index(views(tasks@), pid, 0) == first_child_index(views(tasks@), pid, i as int),
        decreases tasks@.len() - i,
    {
        match tasks[i].parent_id {
            Some(p) => {
                if p == pid {
                    return i;
                }
            },
            None => {},
        }
        i = i + 1;
    }
    i
}

/// The index just after the first task `id`, or the end of the list.
fn index_after(tasks: &Vec<Task>, id: u128) -> (r: usize)
    ensures
        r as int == after_index(views(tasks@), id),
{
    let n = tasks.len();
    match find_index(tasks, id) {
        Some(i) => {
            proof {
                lemma_first_index(views(tasks@), id);
            }
            i + 1
        },
        None => n,
    }
}

/// Adds `task` to the list at `pos`; a child also joins its parent's children.
fn add_task(tasks: &mut Vec<Task>, task: Task, pos: InsertPosition)
    requires
        task.parent_id != Some(task.id),
    ensures
        views(final(tasks)@) == with_new_task(views(old(tasks)@), task@, pos),
{
        let task_id = task.id;
        let ghost t = task@;
        let ghost ts = views(tasks@);
        match task.parent_id {
            None => {
                let at = match pos {
                    InsertPosition::AtBeginning => 0,
                    InsertPosition::AfterSibling(a) => index_after(tasks, a),
                    InsertPosition::AfterParent(_) => tasks.len(),
                };
                proof {
                    if let InsertPosition::AfterSibling(a) = pos {
                        lemma_first_index(ts, a);
                    }
                }
                tasks.insert(at, task);
                proof {
                    assert(views(tasks@) =~= ts.insert(at as int, t));
                }
            },
            Some(pid) => {
                let at = match pos {
                    InsertPosition::AtBeginning => find_first_child(tasks, pid),
                    InsertPosition::AfterSibling(a) => index_after(tasks, a),
                    InsertPosition::AfterParent(p) => index_after(tasks, p),
                };
                let slot: usize = match pos {
                    InsertPosition::AfterSibling(a) => match find_index(tasks, pid) {
                        Some(k) => {
                            proof {
                                lemma_first_index(ts, pid);
                                crate::kanban::lemma_pos_from(tasks@[k as int].children@, a, 0);
                            }
                            let clen = tasks[k].children.len();
                            match crate::kanban::first_pos(&tasks[k].children, a) {
                                Some(q) => q + 1,
                                None => clen,
                            }
                        },
                        None => 0,
                    },
                    _ => 0,
                };
                proof {
                    lemma_first_index(ts, pid);
                    crate::tree::lemma_first_index(ts, pid);
                }
                assert(0 <= at <= ts.len()) by {
                    lemma_first_index(ts, match pos {
                        InsertPosition::AfterSibling(a) => a,
                        InsertPosition::AfterParent(p) => p,
                        InsertPosition::AtBeginning => pid,
                    });
                    lemma_first_child_index(ts, pid, 0);
                }
                tasks.insert(at, task);
                let ghost ts1 = views(tasks@);
                proof {
                    assert(ts1 =~= ts.insert(at as int, t));
                    lemma_lookup_insert(ts, at as int, t, pid);
                }
                match find_index(tasks, pid) {
                    Some(k) => {
                        proof {
                            lemma_first_index(ts1, pid);
                            assert(tasks@[k as int].children@ == lookup(ts, pid)->0.children);
                        }
                        tasks[k].children.insert(slot, task_id);
                        proof {
                            assert(views(tasks@) =~= update_first(
                                ts1,
                                pid,
                                |x: TaskView| with_children(x, x.children.insert(slot as int, task_id)),
                            ));
                        }
                    },
                    None => {
                        proof {
                            assert(update_first(
                                ts1,
                                pid,
                                |x: TaskView| with_children(x, x.children.insert(slot as int, task_id)),
                            ) == ts1);
                        }
                    },
                }
            },
        }
}

impl App {
    /// `new` is `old` after task `t` was added at `pos` at time `now`: the
    /// list gains it (and its parent lists it), the cursor of its status's
    /// column goes onto it, and the statuses above it are derived again.
    pub open spec fn placed(old: App, new: App, t: TaskView, pos: InsertPosition, now: i64) -> bool {
        exists|mid: App|
            {
                &&& mid == (App { tasks: mid.tasks, ..old })
                &&& views(mid.tasks@) == with_new_task(views(old.tasks@), t, pos)
                &&& views(new.tasks@) == propagate_up(views(mid.tasks@), t.id, now)
                &&& new.cursor@ == App::followed(mid, status_column(t.status), t.id)
                &&& new == (App { tasks: new.tasks, cursor: new.cursor, ..old })
            }
    }

    /// Adds `task` as a child of `parent_id` (top-level when `None`) at `pos`
    /// at time `now`, puts the cursor of its status's column on it and derives
    /// the statuses above it again.
    pub fn place_new_task(&mut self, task: Task, parent_id: Option<u128>, pos: InsertPosition, now: i64)
        requires
            parent_id != Some(task.id),
        ensures
            App::placed(*old(self), *final(self), TaskView { parent_id, ..task@ }, pos, now),
    {
        let mut task = task;
        task.parent_id = parent_id;
        let task_id = task.id;
        let status = task.status;
        let ghost t = task@;
        add_task(&mut self.tasks, task, pos);
        let ghost mid = *self;
        let col = column_of_status(status);
        self.follow_task(col, task_id);
        propagate_status_up(&mut self.tasks, task_id, now);
        proof {
            let tv = TaskView { parent_id, ..task@ };
            assert(t == tv);
            assert(mid == (App { tasks: mid.tasks, ..*old(self) }));
            assert(views(mid.tasks@) == with_new_task(views(old(self).tasks@), tv, pos));
            assert(views(self.tasks@) == propagate_up(views(mid.tasks@), tv.id, now));
            assert(self.cursor@ == App::followed(mid, status_column(tv.status), tv.id));
            assert(*self == (App { tasks: self.tasks, cursor: self.cursor, ..*old(self) }));
        }
    }
}

/// The first child index is an index of the list, or its length.
pub proof fn lemma_first_child_index(ts: Seq<TaskView>, pid: u128, i: int)
    requires
        0 <= i <= ts.len(),
    ensures
        i <= first_child_index(ts, pid, i) <= ts.len(),
    decreases ts.len() - i,
{
    if i < ts.len() && ts[i].parent_id != Some(pid) {
        lemma_first_child_index(ts, pid, i + 1);
    }
}

/// The slots among the first `k` that are switched on and hold a project.
pub open spec fn active_named(active: Seq<bool>, projects: Seq<Option<String>>, k: int) -> Seq<int>
    decreases k,
{
    if k <= 0 {
        Seq::empty()
    } else if active[k - 1] && projects[k - 1] is Some {
        active_named(active, projects, k - 1).push(k - 1)
    } else {
        active_named(active, projects, k - 1)
    }
}

/// Facts about the chosen slots: they are in range and in increasing order.
pub proof fn lemma_active_named(active: Seq<bool>, projects: Seq<Option<String>>, k: int)
    requires
        0 <= k,
    ensures
        forall|j: int|
            0 <= j < active_named(active, projects, k).len() ==> 0 <= #[trigger] active_named(active, projects, k)[j] < k
                && active[active_named(active, projects, k)[j]] && projects[active_named(active, projects, k)[j]] is Some,
    decreases k,
{
    if k > 0 {
        lemma_active_named(active, projects, k - 1);
    }
}

impl App {
    /// The project a new top-level task gets: the project of the one slot
    /// switched on, when exactly one named slot is on; none otherwise.
    pub open spec fn insert_project(&self) -> Seq<char> {
        let a = active_named(self.active_slots@, self.projects@, 10);
        if a.len() == 1 {
            self.projects@[a[0]]->0@
        } else {
            Seq::empty()
        }
    }

    /// Whether the cursor's task of the focused column, if any, is in the list.
    pub open spec fn selection_found(&self) -> bool {
        match self.selected(self.focused_col) {
            Some(id) => self.find(id) is Some,
            None => true,
        }
    }

    /// `new` is `old` with the insert prompt open: an empty title, status
    /// Todo, parent `parent`, project `project` and position `pos`.
    pub open spec fn prompt_opened(old: App, new: App, parent: Option<u128>, project: Seq<char>, pos: InsertPosition) -> bool {
        &&& new.insert matches Some(st) && st.title@.len() == 0 && st.status == Status::Todo
            && st.parent_id == parent && st.project@ == project && st.position == pos
        &&& new.mode == Mode::Insert
        &&& new == (App { insert: new.insert, mode: new.mode, ..old })
    }

    /// The project name to use for a new top-level task given the filter:
    /// the sole active named slot's project, else the empty name.
    pub fn default_project_for_insert(&self) -> (r: String)
        ensures
            r@ == self.insert_project(),
    {
        let ghost act = self.active_slots@;
        let ghost prj = self.projects@;
        let mut count: usize = 0;
        let mut first: usize = 0;
        let mut k: usize = 0;
        while k < 10
            invariant
                k <= 10,
                act == self.active_slots@,
                prj == self.projects@,
                act.len() == 10,
                prj.len() == 10,
                count == active_named(act, prj, k as int).len(),
                count <= k,
                count > 0 ==> first == active_named(act, prj, k as int)[0],
            decreases 10 - k,
        {
            if self.active_slots[k] && self.projects[k].is_some() {
                if count == 0 {
                    first = k;
                }
                count = count + 1;
            }
            k = k + 1;
        }
        if count == 1 {
            proof {
                lemma_active_named(act, prj, 10);
            }
            match &self.projects[first] {
                Some(p) => p.clone(),
                None => String::new(),
            }
        } else {
            String::new()
        }
    }

    /// What `begin_insert_after` makes of `old`: the state `new`.
    pub open spec fn begin_insert_after_done(old: App, new: App) -> bool {
        &&& (match old.selected(old.focused_col) {
            Some(id) => {
                let t = old.find(id)->0;
                App::prompt_opened(
                    old,
                    new,
                    t.parent_id,
                    if t.parent_id is Some { t.project } else { old.insert_project() },
                    InsertPosition::AfterSibling(id),
                )
            },
            None => App::prompt_opened(
                old,
                new,
                None,
                old.insert_project(),
                InsertPosition::AtBeginning,
            ),
        })
    }

    /// Opens the insert prompt for a new task after the cursor's task, as its
    /// sibling; with no task under the cursor, at the top of the list.
    pub fn begin_insert_after(&mut self)
        requires
            old(self).selection_found(),
        ensures
            App::begin_insert_after_done(*old(self), *final(self)),
    {
        let col = self.focused_col;
        let (parent_id, project, position) = match self.selected_task_id(col) {
            Some(id) => {
                let task = match self.task_ref(id) {
                    Some(t) => t,
                    None => {
                        proof {
                            assert(false);
                        }
                        return;
                    },
                };
                let project = if task.parent_id.is_some() {
                    task.project.clone()
                } else {
                    self.default_project_for_insert()
                };
                (task.parent_id, project, InsertPosition::AfterSibling(id))
            },
            None => (None, self.default_project_for_insert(), InsertPosition::AtBeginning),
        };
        self.insert = Some(InsertState {
            title: String::new(),
            project,
            parent_id,
            status: Status::Todo,
            position,
        });
        self.mode = Mode::Insert;
    }
}

/// Identifiers of the top-level tasks among the first `k` of `l`, in order.
pub open spec fn top_ids(l: Seq<TaskView>, k: int) -> Seq<u128>
    decreases k,
{
    if k <= 0 {
        Seq::empty()
    } else if l[k - 1].parent_id is None {
        top_ids(l, k - 1).push(l[k - 1].id)
    } else {
        top_ids(l, k - 1)
    }
}

/// The last of `kids[..k]` whose task has status `s`.
pub open spec fn last_with_status(ts: Seq<TaskView>, kids: Seq<u128>, s: Status, k: int) -> Option<u128>
    decreases k,
{
    if k <= 0 {
        None
    } else if lookup(ts, kids[k - 1]) matches Some(c) && c.status == s {
        Some(kids[k - 1])
    } else {
        last_with_status(ts, kids, s, k - 1)
    }
}

/// The task a new task typed with `st` becomes, given the identifier and
/// creation time it receives.
pub open spec fn typed_task(st: InsertState, t: TaskView) -> bool {
    &&& t.title == trimmed(st.title@)
    &&& t.project == st.project@
    &&& t.status == st.status
    &&& t.parent_id == st.parent_id
    &&& t.children.len() == 0
    &&& t.transitions.len() == 0
    &&& t.flags == 0
    &&& crate::outside::valid_ms(t.created_at)
}

impl App {
    /// `new` is `old` once the task typed with `st` was added at some time
    /// with some fresh identifier.
    pub open spec fn typed_in(old: App, new: App, st: InsertState) -> bool {
        exists|t: TaskView, now: i64| typed_task(st, t) && #[trigger] App::placed(old, new, t, st.position, now)
    }

    /// Where `begin_insert_before` puts a new task in front of task `id`.
    pub open spec fn before_position(&self, id: u128) -> InsertPosition {
        let ts = views(self.tasks@);
        match parent_of(ts, id) {
            Some(pid) => {
                let kids = match lookup(ts, pid) {
                    Some(p) => p.children,
                    None => Seq::empty(),
                };
                let q = pos_from(kids, id, 0);
                if q > 0 {
                    InsertPosition::AfterSibling(kids[q - 1])
                } else {
                    InsertPosition::AfterParent(pid)
                }
            },
            None => {
                let vis = crate::board::tasks_of(ts, self.visible_order(self.focused_col));
                let roots = top_ids(vis, vis.len() as int);
                let q = pos_from(roots, id, 0);
                if q > 0 {
                    InsertPosition::AfterSibling(roots[q - 1])
                } else {
                    InsertPosition::AtBeginning
                }
            },
        }
    }

    /// What `begin_insert_before` makes of `old`: the state `new`.
    pub open spec fn begin_insert_before_done(old: App, new: App) -> bool {
        &&& (match old.selected(old.focused_col) {
            Some(id) => {
                let t = old.find(id)->0;
                App::prompt_opened(
                    old,
                    new,
                    t.parent_id,
                    if t.parent_id is Some { t.project } else { old.insert_project() },
                    old.before_position(id),
                )
            },
            None => new == old,
        })
    }

    /// Opens the insert prompt for a new task just before the cursor's task,
    /// as its sibling; does nothing with no task under the cursor.
    pub fn begin_insert_before(&mut self)
        requires
            old(self).selection_found(),
        ensures
            App::begin_insert_before_done(*old(self), *final(self)),
    {
        let col = self.focused_col;
        let current_id = match self.selected_task_id(col) {
            Some(id) => id,
            None => {
                return;
            },
        };
        let task = match self.task_ref(current_id) {
            Some(t) => t,
            None => {
                proof {
                    assert(false);
                }
                return;
            },
        };
        let parent_id = task.parent_id;
        let project = if parent_id.is_some() {
            task.project.clone()
        } else {
            self.default_project_for_insert()
        };
        let position = match parent_id {
            Some(pid) => {
                let children: Vec<u128> = match self.task_ref(pid) {
                    Some(p) => p.children.clone(),
                    None => Vec::new(),
                };
                proof {
                    crate::kanban::lemma_pos_from(children@, current_id, 0);
                }
                let pos = match crate::kanban::first_pos(&children, current_id) {
                    Some(q) => q,
                    None => 0,
                };
                if pos > 0 {
                    InsertPosition::AfterSibling(children[pos - 1])
                } else {
                    InsertPosition::AfterParent(pid)
                }
            },
            None => {
                let visible = self.visible_tasks_for(col);
                let ghost vis = deref_all(visible@);
                proof {
                    assert(vis =~= crate::board::tasks_of(views(self.tasks@), self.visible_order(col)));
                }
                let mut roots: Vec<u128> = Vec::new();
                let mut k: usize = 0;
                while k < visible.len()
                    invariant
                        k <= visible@.len(),
                        vis == deref_all(visible@),
                        roots@ == top_ids(vis, k as int),
                    decreases visible@.len() - k,
                {
                    if visible[k].parent_id.is_none() {
                        roots.push(visible[k].id);
                    }
                    k = k + 1;
                }
                proof {
                    crate::kanban::lemma_pos_from(roots@, current_id, 0);
                }
                let pos = match crate::kanban::first_pos(&roots, current_id) {
                    Some(q) => q,
                    None => 0,
                };
                if pos > 0 {
                    InsertPosition::AfterSibling(roots[pos - 1])
                } else {
                    InsertPosition::AtBeginning
                }
            },
        };
        self.insert = Some(InsertState {
            title: String::new(),
            project,
            parent_id,
            status: Status::Todo,
            position,
        });
        self.mode = Mode::Insert;
    }

    /// What `commit_insert` makes of `old`: the state `new`.
    pub open spec fn commit_insert_done(old: App, new: App) -> bool {
        &&& (new.mode == Mode::Normal)
        &&& (new.insert is None)
        &&& (match old.insert {
            None => new == (App { mode: Mode::Normal, ..old }),
            Some(st) => if crate::text::blank(st.title@) {
                new == (App { mode: Mode::Normal, insert: None, ..old })
            } else {
                App::typed_in(App { mode: Mode::Normal, insert: None, ..old }, new, st)
            },
        })
    }

    /// Closes the insert prompt and adds the typed task (title trimmed), with
    /// a fresh identifier, as `place_new_task` does; a blank title adds
    /// nothing. Should the fresh identifier equal the parent's, the next one
    /// is taken instead.
    pub fn commit_insert(&mut self)
        ensures
            App::commit_insert_done(*old(self), *final(self)),
    {
        let taken = self.insert.take();
        self.mode = Mode::Normal;
        let state = match taken {
            Some(st) => st,
            None => {
                return;
            },
        };
        let title = trim_text(state.title.as_str());
        if title.as_str().unicode_len() == 0 {
            return;
        }
        let parent_id = state.parent_id;
        let mut task = Task::new(title, state.project.clone(), state.status);
        task.id = id_apart_from(task.id, parent_id);
        let now = now_millis();
        let ghost t = TaskView { parent_id, ..task@ };
        self.place_new_task(task, parent_id, state.position, now);
        proof {
            assert(typed_task(state, t));
        }
    }

    /// What `indent_insert` makes of `old`: the state `new`.
    pub open spec fn indent_insert_done(old: App, new: App) -> bool {
        &&& (match old.insert {
            Some(st) => match st.position {
                InsertPosition::AfterSibling(above) => match old.find(above) {
                    Some(a) => new.insert matches Some(n) && n.title == st.title && n.status == st.status
                        && n.parent_id == Some(above) && n.project@ == a.project && n.position == (
                    match last_with_status(views(old.tasks@), a.children, st.status, a.children.len() as int) {
                        Some(lc) => InsertPosition::AfterSibling(lc),
                        None => InsertPosition::AfterParent(above),
                    }) && new == (App { insert: new.insert, ..old }),
                    None => new == old,
                },
                _ => new == old,
            },
            None => new == old,
        })
    }

    /// In the insert prompt, makes the new task a child of the sibling above
    /// it, placed after that task's last child with the same status.
    pub fn indent_insert(&mut self)
        ensures
            App::indent_insert_done(*old(self), *final(self)),
    {
        let (above_id, status) = match &self.insert {
            Some(st) => match st.position {
                InsertPosition::AfterSibling(id) => (id, st.status),
                _ => {
                    return;
                },
            },
            None => {
                return;
            },
        };
        let (new_project, children) = match self.task_ref(above_id) {
            Some(t) => (t.project.clone(), t.children.clone()),
            None => {
                return;
            },
        };
        let ghost ts = views(self.tasks@);
        let mut k: usize = children.len();
        let mut last_child: Option<u128> = None;
        while k > 0
            invariant_except_break
                last_child is None,
            invariant
                k <= children@.len(),
                ts == views(self.tasks@),
                last_with_status(ts, children@, status, children@.len() as int) == (match last_child {
                    Some(c) => Some(c),
                    None => last_with_status(ts, children@, status, k as int),
                }),
            ensures
                last_with_status(ts, children@, status, children@.len() as int) == last_child,
            decreases k,
        {
            let cid = children[k - 1];
            match self.task_ref(cid) {
                Some(c) => {
                    if c.status == status {
                        proof {
                            assert(lookup(ts, children@[k - 1]) == Some(c@));
                            assert(last_with_status(ts, children@, status, k as int) == Some(cid));
                        }
                        last_child = Some(cid);
                        break;
                    }
                },
                None => {},
            }
            k = k - 1;
        }
        proof {
            assert(children@ == old(self).find(above_id)->0.children);
            assert(new_project@ == old(self).find(above_id)->0.project);
        }
        match &mut self.insert {
            Some(st) => {
                st.parent_id = Some(above_id);
                st.project = new_project;
                st.position = match last_child {
                    Some(lc) => InsertPosition::AfterSibling(lc),
                    None => InsertPosition::AfterParent(above_id),
                };
            },
            None => {},
        }
        proof {
            let st = old(self).insert->0;
            assert(self.insert is Some);
            let n = self.insert->0;
            assert(n.title == st.title);
            assert(n.status == st.status);
            assert(n.parent_id == Some(above_id));
            assert(*self == (App { insert: self.insert, ..*old(self) }));
            let a = old(self).find(above_id)->0;
            assert(n.project@ == a.project);
            assert(last_with_status(views(old(self).tasks@), a.children, st.status, a.children.len() as int) == last_child);
            assert(n.position == (match last_with_status(views(old(self).tasks@), a.children, st.status, a.children.len() as int) {
                Some(lc) => InsertPosition::AfterSibling(lc),
                None => InsertPosition::AfterParent(above_id),
            }));
        }
    }

    /// What `unindent_insert` makes of `old`: the state `new`.
    pub open spec fn unindent_insert_done(old: App, new: App) -> bool {
        &&& (match old.insert {
            Some(st) => match st.parent_id {
                Some(pid) => new.insert matches Some(n) && n.title == st.title && n.status == st.status
                    && n.parent_id == (match old.find(pid) {
                    Some(p) => p.parent_id,
                    None => None,
                }) && n.project@ == (match old.find(pid) {
                    Some(p) => p.project,
                    None => Seq::empty(),
                }) && n.position == InsertPosition::AfterSibling(pid) && new == (App {
                    insert: new.insert,
                    ..old
                }),
                None => new == old,
            },
            None => new == old,
        })
    }

    /// In the insert prompt, makes the new task a sibling of its parent,
    /// placed right after it.
    pub fn unindent_insert(&mut self)
        ensures
            App::unindent_insert_done(*old(self), *final(self)),
    {
        let parent_id = match &self.insert {
            Some(st) => match st.parent_id {
                Some(pid) => pid,
                None => {
                    return;
                },
            },
            None => {
                return;
            },
        };
        let (grandparent_id, project) = match self.task_ref(parent_id) {
            Some(t) => (t.parent_id, t.project.clone()),
            None => (None, String::new()),
        };
        match &mut self.insert {
            Some(st) => {
                st.parent_id = grandparent_id;
                st.project = project;
                st.position = InsertPosition::AfterSibling(parent_id);
            },
            None => {},
        }
    }
}

/// `t` with title `title`.
pub open spec fn with_title(t: TaskView, title: Seq<char>) -> TaskView {
    TaskView { title, ..t }
}

impl App {
    /// `new` is `old` with the edit prompt open on task `id` (whose title is
    /// `title`), its cursor at `pos`.
    pub open spec fn edit_opened(old: App, new: App, id: u128, title: Seq<char>, pos: int) -> bool {
        &&& new.edit matches Some(e) && e.task_id == id && e.title@ == title && e.cursor_pos == pos
        &&& new.mode == Mode::Insert
        &&& new == (App { edit: new.edit, mode: new.mode, ..old })
    }

    /// What `begin_edit` makes of `old`: the state `new`.
    pub open spec fn begin_edit_done(old: App, new: App, cursor_at_end: bool) -> bool {
        &&& (match old.selected(old.focused_col) {
            Some(id) => match old.find(id) {
                Some(t) => App::edit_opened(
                    old,
                    new,
                    id,
                    t.title,
                    if cursor_at_end { t.title.len() as int } else { 0 },
                ),
                None => new == old,
            },
            None => new == old,
        })
    }

    /// Opens the edit prompt on the cursor's task, the text cursor at the end
    /// of the title or at its start.
    pub fn begin_edit(&mut self, cursor_at_end: bool)
        ensures
            App::begin_edit_done(*old(self), *final(self), cursor_at_end),
    {
        let col = self.focused_col;
        if let Some(id) = self.selected_task_id(col) {
            if let Some(task) = self.task_ref(id) {
                let cursor_pos = if cursor_at_end {
                    task.title.as_str().unicode_len()
                } else {
                    0
                };
                let title = task.title.clone();
                self.edit = Some(EditState { task_id: id, title, cursor_pos });
                self.mode = Mode::Insert;
            }
        }
    }

    /// Opens the edit prompt on the cursor's task, the text cursor `percent`
    /// per cent of the way into the title (at most at its end).
    pub fn begin_edit_at_percent(&mut self, percent: usize)
        ensures
            match old(self).selected(old(self).focused_col) {
                Some(id) => match old(self).find(id) {
                    Some(t) => App::edit_opened(
                        *old(self),
                        *final(self),
                        id,
                        t.title,
                        if t.title.len() * percent / 100 <= t.title.len() {
                            t.title.len() * percent / 100
                        } else {
                            t.title.len() as int
                        },
                    ),
                    None => *final(self) == *old(self),
                },
                None => *final(self) == *old(self),
            },
    {
        let col = self.focused_col;
        if let Some(id) = self.selected_task_id(col) {
            if let Some(task) = self.task_ref(id) {
                let len = task.title.as_str().unicode_len();
                proof {
                    assert((len as u128) * (percent as u128) <= 0xffff_ffff_ffff_ffff * 0xffff_ffff_ffff_ffff)
                        by (nonlinear_arith)
                        requires
                            len <= 0xffff_ffff_ffff_ffff,
                            percent <= 0xffff_ffff_ffff_ffff,
                    ;
                }
                let wide: u128 = (len as u128) * (percent as u128) / 100;
                let cursor_pos: usize = if wide <= len as u128 {
                    wide as usize
                } else {
                    len
                };
                let title = task.title.clone();
                self.edit = Some(EditState { task_id: id, title, cursor_pos });
                self.mode = Mode::Insert;
            }
        }
    }

    /// What `commit_edit` makes of `old`: the state `new`.
    pub open spec fn commit_edit_done(old: App, new: App) -> bool {
        &&& (new.mode == Mode::Normal)
        &&& (new.edit is None)
        &&& (views(new.tasks@) == match old.edit {
            Some(e) => update_first(
                views(old.tasks@),
                e.task_id,
                |t: TaskView| with_title(t, trimmed(e.title@)),
            ),
            None => views(old.tasks@),
        })
        &&& (new == (App { tasks: new.tasks, mode: Mode::Normal, edit: None, ..old }))
    }

    /// Closes the edit prompt, giving the edited task the trimmed title.
    pub fn commit_edit(&mut self)
        ensures
            App::commit_edit_done(*old(self), *final(self)),
    {
        let taken = self.edit.take();
        self.mode = Mode::Normal;
        if let Some(state) = taken {
            let title = trim_text(state.title.as_str());
            let ghost before = self.tasks@;
            if let Some(task) = self.task_mut(state.task_id) {
                task.title = title;
            }
            proof {
                assert(views(self.tasks@) =~= update_first(
                    views(old(self).tasks@),
                    state.task_id,
                    |t: TaskView| with_title(t, trimmed(state.title@)),
                ));
            }
        }
    }
}

/// `id`, or the identifier after it (wrapping around) when `id` is `avoid`.
pub fn id_apart_from(id: u128, avoid: Option<u128>) -> (r: u128)
    ensures
        avoid != Some(r),
        avoid != Some(id) ==> r == id,
        avoid == Some(id) ==> r == (if id == u128::MAX { 0 } else { id + 1 }),
{
    match avoid {
        Some(a) => if a == id {
            if id == u128::MAX {
                0
            } else {
                id + 1
            }
        } else {
            id
        },
        None => id,
    }
}

} // verus!
