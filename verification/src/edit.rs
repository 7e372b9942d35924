//! Editing the task forest: reparenting, reordering, deleting, undo.

use vstd::prelude::*;

use crate::board::{App, Column, column_index, same_text};
use crate::kanban::{deref_all, pos_from};
use crate::board::{ids_where, tasks_of};
use crate::task::{Task, TaskView, clone_tasks, views};
use crate::tree::{
    descends_from, has_id, is_descendant_of, visible_walk_order, walk_ids,
    ancestor_at_depth, ancestor_steps, contains_id, depth_of, find_index, first_index,
    lemma_first_index, lookup, parent_id_of, parent_of, root_of, root_task_id, task_depth,
};

verus! {

/// `s[..k]` without the occurrences of `x`.
pub open spec fn without_upto(s: Seq<u128>, x: u128, k: int) -> Seq<u128>
    decreases k,
{
    if k <= 0 {
        Seq::empty()
    } else if s[k - 1] == x {
        without_upto(s, x, k - 1)
    } else {
        without_upto(s, x, k - 1).push(s[k - 1])
    }
}

/// `s` without the occurrences of `x`, in order.
pub open spec fn without(s: Seq<u128>, x: u128) -> Seq<u128> {
    without_upto(s, x, s.len() as int)
}

/// The first `k` tasks without those whose identifier is `id`.
pub open spec fn drop_id_upto(ts: Seq<TaskView>, id: u128, k: int) -> Seq<TaskView>
    decreases k,
{
    if k <= 0 {
        Seq::empty()
    } else if ts[k - 1].id == id {
        drop_id_upto(ts, id, k - 1)
    } else {
        drop_id_upto(ts, id, k - 1).push(ts[k - 1])
    }
}

/// The tasks without those whose identifier is `id`.
pub open spec fn drop_id(ts: Seq<TaskView>, id: u128) -> Seq<TaskView> {
    drop_id_upto(ts, id, ts.len() as int)
}

/// The tasks with the first task `id` replaced by `f` of it.
pub open spec fn update_first(ts: Seq<TaskView>, id: u128, f: spec_fn(TaskView) -> TaskView) -> Seq<
    TaskView,
> {
    let i = first_index(ts, id);
    if 0 <= i < ts.len() {
        ts.update(i, f(ts[i]))
    } else {
        ts
    }
}

pub open spec fn with_children(t: TaskView, c: Seq<u128>) -> TaskView {
    TaskView { children: c, ..t }
}

pub open spec fn with_parent(t: TaskView, p: Option<u128>) -> TaskView {
    TaskView { parent_id: p, ..t }
}

pub open spec fn with_project(t: TaskView, p: Seq<char>) -> TaskView {
    TaskView { project: p, ..t }
}

/// Removes child `c` from the list of the first task `pid`.
pub open spec fn unlink(ts: Seq<TaskView>, pid: u128, c: u128) -> Seq<TaskView> {
    update_first(ts, pid, |t: TaskView| with_children(t, without(t.children, c)))
}

/// Appends child `c` to the list of the first task `pid` unless listed already.
pub open spec fn link(ts: Seq<TaskView>, pid: u128, c: u128) -> Seq<TaskView> {
    update_first(
        ts,
        pid,
        |t: TaskView|
            if t.children.contains(c) {
                t
            } else {
                with_children(t, t.children.push(c))
            },
    )
}

/// Records `p` as the parent of the first task `id`.
pub open spec fn reparent(ts: Seq<TaskView>, id: u128, p: Option<u128>) -> Seq<TaskView> {
    update_first(ts, id, |t: TaskView| with_parent(t, p))
}

/// `v` without the occurrences of `x`.
pub fn without_id(v: &Vec<u128>, x: u128) -> (r: Vec<u128>)
    ensures
        r@ == without(v@, x),
{
    let mut r: Vec<u128> = Vec::new();
    let mut i: usize = 0;
    while i < v.len()
        invariant
            i <= v@.len(),
            r@ == without_upto(v@, x, i as int),
        decreases v@.len() - i,
    {
        if v[i] != x {
            r.push(v[i]);
        }
        i = i + 1;
    }
    r
}

/// Removes child `c` from the list of the first task `pid`.
pub fn unlink_child(tasks: &mut Vec<Task>, pid: u128, c: u128)
    ensures
        final(tasks)@.len() == old(tasks)@.len(),
        views(final(tasks)@) == unlink(views(old(tasks)@), pid, c),
{
    match find_index(tasks, pid) {
        Some(i) => {
            proof {
                lemma_first_index(views(tasks@), pid);
            }
            let kids = without_id(&tasks[i].children, c);
            tasks[i].children = kids;
            proof {
                assert(views(tasks@) =~= unlink(views(old(tasks)@), pid, c));
            }
        },
        None => {},
    }
}

/// Appends child `c` to the first task `pid` unless it lists it already.
pub fn link_child(tasks: &mut Vec<Task>, pid: u128, c: u128)
    ensures
        final(tasks)@.len() == old(tasks)@.len(),
        views(final(tasks)@) == link(views(old(tasks)@), pid, c),
{
    match find_index(tasks, pid) {
        Some(i) => {
            proof {
                lemma_first_index(views(tasks@), pid);
            }
            if !contains_id(&tasks[i].children, c) {
                tasks[i].children.push(c);
            }
            proof {
                assert(views(tasks@) =~= link(views(old(tasks)@), pid, c));
            }
        },
        None => {},
    }
}

/// Records `p` as the parent of the first task `id`.
pub fn set_parent(tasks: &mut Vec<Task>, id: u128, p: Option<u128>)
    ensures
        final(tasks)@.len() == old(tasks)@.len(),
        views(final(tasks)@) == reparent(views(old(tasks)@), id, p),
{
    match find_index(tasks, id) {
        Some(i) => {
            proof {
                lemma_first_index(views(tasks@), id);
            }
            tasks[i].parent_id = p;
            proof {
                assert(views(tasks@) =~= reparent(views(old(tasks)@), id, p));
            }
        },
        None => {},
    }
}

/// Removes every task whose identifier is `id`.
pub fn drop_tasks_with_id(tasks: &mut Vec<Task>, id: u128)
    ensures
        views(final(tasks)@) == drop_id(views(old(tasks)@), id),
{
    let ghost o = views(tasks@);
    let n = tasks.len();
    let mut i: usize = 0;
    let mut k: usize = 0;
    while k < n
        invariant
            o == views(old(tasks)@),
            n == o.len(),
            i <= k <= o.len(),
            tasks@.len() == i + (n - k),
            views(tasks@).subrange(0, i as int) == drop_id_upto(o, id, k as int),
            views(tasks@).subrange(i as int, tasks@.len() as int) == o.subrange(k as int, o.len() as int),
        decreases o.len() - k,
    {
        proof {
            assert(views(tasks@)[i as int] == o[k as int]) by {
                assert(views(tasks@).subrange(i as int, tasks@.len() as int)[0] == o.subrange(k as int, o.len() as int)[0]);
            }
        }
        if tasks[i].id == id {
            let ghost before = views(tasks@);
            tasks.remove(i);
            proof {
                assert(views(tasks@).subrange(0, i as int) =~= before.subrange(0, i as int));
                assert(views(tasks@).subrange(i as int, tasks@.len() as int) =~= before.subrange(i + 1, before.len() as int));
                assert(o.subrange(k + 1, o.len() as int) =~= o.subrange(k as int, o.len() as int).subrange(1, o.len() - k));
                assert(before.subrange(i + 1, before.len() as int) =~= before.subrange(i as int, before.len() as int).subrange(1, before.len() - i));
            }
            k = k + 1;
        } else {
            let ghost before = views(tasks@);
            proof {
                assert(before.subrange(0, i + 1) =~= before.subrange(0, i as int).push(before[i as int]));
                assert(o.subrange(k + 1, o.len() as int) =~= o.subrange(k as int, o.len() as int).subrange(1, o.len() - k));
                assert(before.subrange(i + 1, before.len() as int) =~= before.subrange(i as int, before.len() as int).subrange(1, before.len() - i));
            }
            i = i + 1;
            k = k + 1;
        }
    }
    proof {
        assert(views(tasks@) =~= views(tasks@).subrange(0, i as int));
    }
}

/// The task lists of a history stack, as values.
pub open spec fn stack_views(s: Seq<Vec<Task>>) -> Seq<Seq<TaskView>> {
    s.map_values(|v: Vec<Task>| views(v@))
}

/// The undo history after saving `cur`: at most the 50 most recent lists.
pub open spec fn undo_pushed(stack: Seq<Seq<TaskView>>, cur: Seq<TaskView>) -> Seq<Seq<TaskView>> {
    let pushed = stack.push(cur);
    if pushed.len() > 50 {
        pushed.drop_first()
    } else {
        pushed
    }
}

/// Clears the parent link of the first task of each of `kids[..k]`.
pub open spec fn orphan_all(ts: Seq<TaskView>, kids: Seq<u128>, k: int) -> Seq<TaskView>
    decreases k,
{
    if k <= 0 {
        ts
    } else {
        reparent(orphan_all(ts, kids, k - 1), kids[k - 1], None)
    }
}

/// The tasks after deleting `id`: it leaves its parent's list, its children
/// lose their parent link, and every task with its identifier is removed.
pub open spec fn delete_spec(ts: Seq<TaskView>, id: u128) -> Seq<TaskView> {
    let ts1 = match parent_of(ts, id) {
        Some(p) => unlink(ts, p, id),
        None => ts,
    };
    let kids = match lookup(ts1, id) {
        Some(t) => t.children,
        None => Seq::empty(),
    };
    drop_id(orphan_all(ts1, kids, kids.len() as int), id)
}

impl App {
    /// `new` is `old` with a copy of its tasks saved for undo (keeping the 50
    /// most recent) and the redo history forgotten.
    pub open spec fn undo_saved(old: App, new: App) -> bool {
        &&& stack_views(new.undo_stack@) == undo_pushed(stack_views(old.undo_stack@), views(old.tasks@))
        &&& new.redo_stack@.len() == 0
        &&& new == (App { undo_stack: new.undo_stack, redo_stack: new.redo_stack, ..old })
    }

    /// `new` is `old` after task `id` was deleted: the tasks as `delete_spec`
    /// gives them, the focused column's cursor pulled back onto its list, and
    /// the message "Deleted".
    pub open spec fn deleted(old: App, new: App, id: u128) -> bool {
        let i = column_index(old.focused_col);
        &&& views(new.tasks@) == delete_spec(views(old.tasks@), id)
        &&& new.cursor@ == old.cursor@.update(i, App::clamped(old.cursor@[i], new.nav_list(old.focused_col).len()))
        &&& new.status_message matches Some(m) && m@ == "Deleted"@
        &&& new == (App { tasks: new.tasks, cursor: new.cursor, status_message: new.status_message, ..old })
    }

    /// `new` is `old` after an undo: with nothing to undo nothing changes;
    /// otherwise the tasks become the last saved copy, the current tasks go
    /// on the redo stack, the cursors are pulled back, and "Undo" is shown.
    pub open spec fn undone(old: App, new: App) -> bool {
        if old.undo_stack@.len() == 0 {
            new == old
        } else {
            &&& views(new.tasks@) == stack_views(old.undo_stack@).last()
            &&& stack_views(new.undo_stack@) == stack_views(old.undo_stack@).drop_last()
            &&& stack_views(new.redo_stack@) == stack_views(old.redo_stack@).push(views(old.tasks@))
            &&& new.status_message matches Some(m) && m@ == "Undo"@
            &&& new.cursor@ == App::clamped_all(App { cursor: old.cursor, ..new })
            &&& (new == (App {
                tasks: new.tasks,
                undo_stack: new.undo_stack,
                redo_stack: new.redo_stack,
                status_message: new.status_message,
                cursor: new.cursor,
                ..old
            }))
        }
    }

    /// `new` is `old` after a redo: the mirror image of `undone`, showing "Redo".
    pub open spec fn redone(old: App, new: App) -> bool {
        if old.redo_stack@.len() == 0 {
            new == old
        } else {
            &&& views(new.tasks@) == stack_views(old.redo_stack@).last()
            &&& stack_views(new.redo_stack@) == stack_views(old.redo_stack@).drop_last()
            &&& stack_views(new.undo_stack@) == stack_views(old.undo_stack@).push(views(old.tasks@))
            &&& new.status_message matches Some(m) && m@ == "Redo"@
            &&& new.cursor@ == App::clamped_all(App { cursor: old.cursor, ..new })
            &&& (new == (App {
                tasks: new.tasks,
                undo_stack: new.undo_stack,
                redo_stack: new.redo_stack,
                status_message: new.status_message,
                cursor: new.cursor,
                ..old
            }))
        }
    }

    /// Saves a copy of the tasks for undo (keeping the 50 most recent) and
    /// forgets the redo history.
    pub fn push_undo(&mut self)
        ensures
            App::undo_saved(*old(self), *final(self)),
    {
        let copy = clone_tasks(&self.tasks);
        self.undo_stack.push(copy);
        if self.undo_stack.len() > 50 {
            self.undo_stack.remove(0);
        }
        self.redo_stack.clear();
        proof {
            assert(stack_views(self.undo_stack@) =~= undo_pushed(
                stack_views(old(self).undo_stack@),
                views(old(self).tasks@),
            ));
        }
    }

    /// Restores the most recently saved tasks, saving the current ones for redo.
    pub fn undo(&mut self)
        ensures
            App::undone(*old(self), *final(self)),
    {
        if self.undo_stack.len() == 0 {
            return;
        }
        match self.undo_stack.pop() {
            Some(prev) => {
                let copy = clone_tasks(&self.tasks);
                self.redo_stack.push(copy);
                self.tasks = prev;
                let ghost mid = *self;
                self.clamp_all_cursors();
                self.status_message = Some("Undo".to_owned());
                proof {
                    App::lemma_view_frame(&mid, &App { cursor: old(self).cursor, ..*self });
                    assert(stack_views(self.undo_stack@) =~= stack_views(old(self).undo_stack@).drop_last());
                    assert(stack_views(self.redo_stack@) =~= stack_views(old(self).redo_stack@).push(views(old(self).tasks@)));
                }
            },
            None => {},
        }
    }

    /// Restores the most recently undone tasks, saving the current ones for undo.
    pub fn redo(&mut self)
        ensures
            App::redone(*old(self), *final(self)),
    {
        if self.redo_stack.len() == 0 {
            return;
        }
        match self.redo_stack.pop() {
            Some(next) => {
                let copy = clone_tasks(&self.tasks);
                self.undo_stack.push(copy);
                self.tasks = next;
                let ghost mid = *self;
                self.clamp_all_cursors();
                self.status_message = Some("Redo".to_owned());
                proof {
                    App::lemma_view_frame(&mid, &App { cursor: old(self).cursor, ..*self });
                    assert(stack_views(self.redo_stack@) =~= stack_views(old(self).redo_stack@).drop_last());
                    assert(stack_views(self.undo_stack@) =~= stack_views(old(self).undo_stack@).push(views(old(self).tasks@)));
                }
            },
            None => {},
        }
    }

    /// Deletes task `id`: it leaves its parent's list, its children lose their
    /// parent link, and every task with its identifier is removed.
    pub fn delete_task(&mut self, id: u128)
        ensures
            App::deleted(*old(self), *final(self), id),
    {
        let ghost ts0 = views(self.tasks@);
        match parent_id_of(&self.tasks, id) {
            Some(pid) => unlink_child(&mut self.tasks, pid, id),
            None => {},
        }
        let children: Vec<u128> = match find_index(&self.tasks, id) {
            Some(i) => {
                proof {
                    lemma_first_index(views(self.tasks@), id);
                }
                self.tasks[i].children.clone()
            },
            None => Vec::new(),
        };
        let ghost ts1 = views(self.tasks@);
        let mut k: usize = 0;
        while k < children.len()
            invariant
                k <= children@.len(),
                views(self.tasks@) == orphan_all(ts1, children@, k as int),
                (*self == (App { tasks: self.tasks, ..*old(self) })),
            decreases children@.len() - k,
        {
            set_parent(&mut self.tasks, children[k], None);
            k = k + 1;
        }
        drop_tasks_with_id(&mut self.tasks, id);
        let ghost mid = *self;
        self.clamp_cursor(self.focused_col);
        self.status_message = Some("Deleted".to_owned());
        proof {
            App::lemma_view_frame(&mid, &*self);
        }
    }
}

/// Gives the first task `id` and everything below it the project `p`, the
/// task before its children. `fuel` bounds the depth.
pub open spec fn set_project_spec(ts: Seq<TaskView>, id: u128, p: Seq<char>, fuel: nat) -> Seq<TaskView>
    decreases fuel, 0int, 0int,
{
    if fuel == 0 {
        ts
    } else {
        let kids = match lookup(ts, id) {
            Some(t) => t.children,
            None => Seq::empty(),
        };
        let ts1 = update_first(ts, id, |t: TaskView| with_project(t, p));
        set_project_kids(ts1, kids, 0, p, (fuel - 1) as nat)
    }
}

pub open spec fn set_project_kids(ts: Seq<TaskView>, kids: Seq<u128>, i: int, p: Seq<char>, fuel: nat) -> Seq<TaskView>
    decreases fuel, 1int, kids.len() - i,
{
    if i < 0 || i >= kids.len() {
        ts
    } else {
        set_project_kids(set_project_spec(ts, kids[i], p, fuel), kids, i + 1, p, fuel)
    }
}

/// Gives the first task `id` and everything below it the project `project`.
fn set_project_rec(tasks: &mut Vec<Task>, id: u128, project: &String, fuel: usize)
    ensures
        final(tasks)@.len() == old(tasks)@.len(),
        views(final(tasks)@) == set_project_spec(views(old(tasks)@), id, project@, fuel as nat),
    decreases fuel,
{
    if fuel == 0 {
        return;
    }
    let children: Vec<u128> = match find_index(tasks, id) {
        Some(i) => {
            proof {
                lemma_first_index(views(tasks@), id);
            }
            let kids = tasks[i].children.clone();
            tasks[i].project = project.clone();
            proof {
                assert(views(tasks@) =~= update_first(views(old(tasks)@), id, |t: TaskView| with_project(t, project@)));
            }
            kids
        },
        None => Vec::new(),
    };
    let ghost f = (fuel - 1) as nat;
    let mut i: usize = 0;
    while i < children.len()
        invariant
            i <= children@.len(),
            fuel > 0,
            f == fuel - 1,
            tasks@.len() == old(tasks)@.len(),
            set_project_spec(views(old(tasks)@), id, project@, fuel as nat) == set_project_kids(
                views(tasks@),
                children@,
                i as int,
                project@,
                f,
            ),
        decreases children@.len() - i,
    {
        set_project_rec(tasks, children[i], project, fuel - 1);
        i = i + 1;
    }
}

/// The tasks after `make_root` moved `id` from its parent `old_pid` up to the
/// grandparent `gp` (or to the top level).
pub open spec fn promote_spec(ts: Seq<TaskView>, id: u128, old_pid: u128, gp: Option<u128>) -> Seq<TaskView> {
    let ts1 = reparent(unlink(ts, old_pid, id), id, gp);
    match gp {
        Some(g) => link(ts1, g, id),
        None => ts1,
    }
}

/// The tasks after `make_child` moved `child` under `new_parent` (leaving
/// `old_parent`), then reconciled the family's project.
pub open spec fn adopt_spec(ts: Seq<TaskView>, child: u128, old_parent: Option<u128>, new_parent: u128) -> Seq<TaskView> {
    let ts1 = match old_parent {
        Some(op) => unlink(ts, op, child),
        None => ts,
    };
    let ts2 = link(reparent(ts1, child, Some(new_parent)), new_parent, child);
    let pp = match lookup(ts2, new_parent) {
        Some(t) => t.project,
        None => Seq::empty(),
    };
    let cp = match lookup(ts2, child) {
        Some(t) => t.project,
        None => Seq::empty(),
    };
    if pp.len() > 0 {
        set_project_spec(ts2, child, pp, ts2.len())
    } else if cp.len() > 0 {
        set_project_spec(ts2, root_of(ts2, new_parent, ts2.len() as nat), cp, ts2.len())
    } else {
        ts2
    }
}

impl App {
    /// Gives task `id` and everything below it the project `project`.
    pub fn set_project_recursive(&mut self, id: u128, project: String)
        ensures
            views(final(self).tasks@) == set_project_spec(
                views(old(self).tasks@),
                id,
                project@,
                old(self).tasks@.len() as nat,
            ),
            (*final(self) == (App { tasks: final(self).tasks, ..*old(self) })),
    {
        let n = self.tasks.len();
        set_project_rec(&mut self.tasks, id, &project, n);
    }

    /// `new` is `old` after `make_root`: an undo point is saved; the cursor's
    /// task, when it has a parent, moves up to its grandparent.
    pub open spec fn promoted(old: App, saved: App, new: App) -> bool {
        let sel = old.selected(old.focused_col);
        &&& stack_views(saved.undo_stack@) == undo_pushed(stack_views(old.undo_stack@), views(old.tasks@))
        &&& saved.redo_stack@.len() == 0
        &&& saved == (App { undo_stack: saved.undo_stack, redo_stack: saved.redo_stack, ..old })
        &&& if sel is Some && parent_of(views(old.tasks@), sel->0) is Some {
            let id = sel->0;
            let pid = parent_of(views(old.tasks@), id)->0;
            let gp = parent_of(views(old.tasks@), pid);
            &&& views(new.tasks@) == promote_spec(views(old.tasks@), id, pid, gp)
            &&& new.status_message matches Some(m) && m@ == (if gp is Some {
                "Promoted one level up"@
            } else {
                "Promoted to root task"@
            })
            &&& new == (App { tasks: new.tasks, status_message: new.status_message, ..saved })
        } else {
            new == saved
        }
    }

    /// What `make_root` makes of `old`: the state `new`.
    pub open spec fn make_root_done(old: App, new: App) -> bool {
        &&& (exists|saved: App| App::promoted(old, saved, new))
    }

    /// Moves the cursor's task one level up: from its parent to its grandparent
    /// (or to the top level), keeping its own children.
    pub fn make_root(&mut self)
        ensures
            App::make_root_done(*old(self), *final(self)),
    {
        self.push_undo();
        let ghost saved = *self;
        proof {
            App::lemma_view_frame(&*old(self), &saved);
        }
        let col = self.focused_col;
        let id = match self.selected_task_id(col) {
            Some(id) => id,
            None => {
                proof {
                    assert(App::promoted(*old(self), saved, *self));
                }
                return;
            },
        };
        let old_parent_id = match parent_id_of(&self.tasks, id) {
            Some(pid) => pid,
            None => {
                proof {
                    assert(App::promoted(*old(self), saved, *self));
                }
                return;
            },
        };
        let grandparent_id = parent_id_of(&self.tasks, old_parent_id);
        unlink_child(&mut self.tasks, old_parent_id, id);
        set_parent(&mut self.tasks, id, grandparent_id);
        match grandparent_id {
            Some(gp) => link_child(&mut self.tasks, gp, id),
            None => {},
        }
        if grandparent_id.is_some() {
            self.status_message = Some("Promoted one level up".to_owned());
        } else {
            self.status_message = Some("Promoted to root task".to_owned());
        }
        proof {
            assert(App::promoted(*old(self), saved, *self));
        }
    }
}

/// Moves `child` from `old_parent` under `new_parent`, then reconciles the
/// family's project.
fn adopt(tasks: &mut Vec<Task>, child_id: u128, old_parent_id: Option<u128>, new_parent_id: u128)
    ensures
        views(final(tasks)@) == adopt_spec(views(old(tasks)@), child_id, old_parent_id, new_parent_id),
{
    match old_parent_id {
        Some(op) => unlink_child(tasks, op, child_id),
        None => {},
    }
    set_parent(tasks, child_id, Some(new_parent_id));
    link_child(tasks, new_parent_id, child_id);
    let parent_project: String = match find_index(tasks, new_parent_id) {
        Some(i) => {
            proof {
                lemma_first_index(views(tasks@), new_parent_id);
            }
            tasks[i].project.clone()
        },
        None => String::new(),
    };
    let child_project: String = match find_index(tasks, child_id) {
        Some(i) => {
            proof {
                lemma_first_index(views(tasks@), child_id);
            }
            tasks[i].project.clone()
        },
        None => String::new(),
    };
    let n = tasks.len();
    if !parent_project.as_str().is_empty() {
        set_project_rec(tasks, child_id, &parent_project, n);
    } else if !child_project.as_str().is_empty() {
        let root_id = root_task_id(tasks, new_parent_id);
        set_project_rec(tasks, root_id, &child_project, n);
    }
}

impl App {
    /// The task `make_child` would place the cursor's task under, if any: the
    /// ancestor of the row above that is as deep as the cursor's task.
    pub open spec fn adoption(&self) -> Option<(u128, u128)> {
        let col = self.focused_col;
        let l = self.nav_list(col);
        let cur = self.cursor@[column_index(col)];
        let ts = views(self.tasks@);
        if cur == 0 || l.len() == 0 || cur >= l.len() {
            None
        } else {
            let child = l[cur as int].id;
            let above = l[cur - 1].id;
            let cd = depth_of(ts, child, ts.len() as nat);
            let ad = depth_of(ts, above, ts.len() as nat);
            if ad < cd {
                None
            } else {
                match ancestor_steps(ts, above, (ad - cd) as nat) {
                    Some(np) => Some((child, np)),
                    None => None,
                }
            }
        }
    }

    /// `new` is `old` after `make_child`.
    pub open spec fn adopted(old: App, saved: App, new: App) -> bool {
        let l = old.nav_list(old.focused_col);
        let cur = old.cursor@[column_index(old.focused_col)];
        &&& stack_views(saved.undo_stack@) == undo_pushed(stack_views(old.undo_stack@), views(old.tasks@))
        &&& saved.redo_stack@.len() == 0
        &&& saved == (App { undo_stack: saved.undo_stack, redo_stack: saved.redo_stack, ..old })
        &&& if cur == 0 || l.len() == 0 || old.adoption() is None {
            new == saved
        } else {
            let (child, np) = old.adoption()->0;
            let op = parent_of(views(old.tasks@), child);
            &&& views(new.tasks@) == (if op == Some(np) {
                views(old.tasks@)
            } else {
                adopt_spec(views(old.tasks@), child, op, np)
            })
            &&& new.status_message matches Some(m) && m@ == "Made child of task above"@
            &&& new == (App { tasks: new.tasks, status_message: new.status_message, ..saved })
        }
    }

    /// Moves the cursor's task one level deeper, under the task above it at its
    /// own depth; the family then shares one project (the parent's when it has
    /// one, else the child's).
    pub fn make_child(&mut self)
        requires
            ({
                let l = old(self).nav_list(old(self).focused_col);
                let cur = old(self).cursor@[column_index(old(self).focused_col)];
                cur == 0 || l.len() == 0 || cur < l.len()
            }),
        ensures
            exists|saved: App| App::adopted(*old(self), saved, *final(self)),
    {
        self.push_undo();
        let ghost saved = *self;
        proof {
            App::lemma_view_frame(&*old(self), &saved);
        }
        let col = self.focused_col;
        let visible = self.nav_tasks_for(col);
        let cur = self.cursor_for(col);
        if cur == 0 || visible.len() == 0 {
            proof {
                assert(App::adopted(*old(self), saved, *self));
            }
            return;
        }
        let child_id = visible[cur].id;
        let above_id = visible[cur - 1].id;
        proof {
            assert(deref_all(visible@)[cur as int].id == child_id);
            assert(deref_all(visible@)[cur - 1].id == above_id);
        }
        let child_depth = task_depth(&self.tasks, child_id);
        let above_depth = task_depth(&self.tasks, above_id);
        if above_depth < child_depth {
            proof {
                assert(App::adopted(*old(self), saved, *self));
            }
            return;
        }
        let new_parent_id = match ancestor_at_depth(&self.tasks, above_id, child_depth) {
            Some(p) => p,
            None => {
                proof {
                    assert(App::adopted(*old(self), saved, *self));
                }
                return;
            },
        };
        let old_parent_id = parent_id_of(&self.tasks, child_id);
        if old_parent_id != Some(new_parent_id) {
            adopt(&mut self.tasks, child_id, old_parent_id, new_parent_id);
        }
        self.status_message = Some("Made child of task above".to_owned());
        proof {
            assert(App::adopted(*old(self), saved, *self));
        }
    }
}

/// `s` with the entries at `a` and `b` exchanged.
pub open spec fn swapped<T>(s: Seq<T>, a: int, b: int) -> Seq<T> {
    s.update(a, s[b]).update(b, s[a])
}

/// Exchanges the entries at `a` and `b`.
pub fn swap_entries<T>(v: &mut Vec<T>, a: usize, b: usize)
    requires
        a < old(v)@.len(),
        b < old(v)@.len(),
    ensures
        final(v)@ == swapped(old(v)@, a as int, b as int),
{
    if a == b {
        proof {
            assert(v@ =~= swapped(old(v)@, a as int, b as int));
        }
        return;
    }
    let (lo, hi) = if a < b { (a, b) } else { (b, a) };
    let x = v.remove(hi);
    let y = v.remove(lo);
    v.insert(lo, x);
    v.insert(hi, y);
    proof {
        assert(v@ =~= swapped(old(v)@, a as int, b as int));
    }
}

/// Identifiers listed by `ids_where` belong to tasks of the list.
pub proof fn lemma_ids_where_present(ts: Seq<TaskView>, p: spec_fn(TaskView) -> bool, k: int)
    requires
        0 <= k <= ts.len(),
    ensures
        forall|j: int| 0 <= j < ids_where(ts, p, k).len() ==> has_id(ts, #[trigger] ids_where(ts, p, k)[j]),
    decreases k,
{
    if k > 0 {
        lemma_ids_where_present(ts, p, k - 1);
        assert forall|j: int| 0 <= j < ids_where(ts, p, k).len() implies has_id(ts, #[trigger] ids_where(ts, p, k)[j]) by {
            if j < ids_where(ts, p, k - 1).len() {
                assert(ids_where(ts, p, k)[j] == ids_where(ts, p, k - 1)[j]);
            } else {
                assert(ts[k - 1].id == ids_where(ts, p, k)[j]);
            }
        }
    }
}

/// Position in `rows` past the rows below `id`, counting from `e`.
pub open spec fn subtree_end(rows: Seq<u128>, ts: Seq<TaskView>, id: u128, e: int) -> int
    decreases rows.len() - e,
    when 0 <= e
{
    if e < rows.len() && descends_from(ts, rows[e], id, ts.len() as nat) {
        subtree_end(rows, ts, id, e + 1)
    } else {
        e
    }
}

/// The tasks after task `id` traded places with the sibling just before it
/// (among its parent's children, or among the top-level tasks in list
/// order), or `None` when it has no such sibling.
pub open spec fn swap_up_in(ts: Seq<TaskView>, id: u128) -> Option<Seq<TaskView>> {
    match parent_of(ts, id) {
        Some(pid) => {
            let kids = match lookup(ts, pid) {
                Some(p) => p.children,
                None => Seq::empty(),
            };
            let q = pos_from(kids, id, 0);
            if q <= 0 {
                None
            } else {
                Some(update_first(ts, pid, |t: TaskView| with_children(t, swapped(t.children, q, q - 1))))
            }
        },
        None => {
            let roots = roots_upto(ts, ts.len() as int);
            let q = pos_from(roots, id, 0);
            if q <= 0 {
                None
            } else {
                Some(swapped(ts, first_index(ts, id), first_index(ts, roots[q - 1])))
            }
        },
    }
}

/// Identifiers of the top-level tasks among the first `k`, in list order.
pub open spec fn roots_upto(ts: Seq<TaskView>, k: int) -> Seq<u128> {
    ids_where(ts, |t: TaskView| t.parent_id is None, k)
}

/// Trades task `task_id` with the sibling just before it; says whether it did.
fn swap_up_among(tasks: &mut Vec<Task>, task_id: u128) -> (changed: bool)
    ensures
        changed == (swap_up_in(views(old(tasks)@), task_id) is Some),
        changed ==> views(final(tasks)@) == swap_up_in(views(old(tasks)@), task_id)->0,
        !changed ==> *final(tasks) == *old(tasks),
{
    let ghost ts = views(tasks@);
    match parent_id_of(tasks, task_id) {
        Some(pid) => {
            let children: Vec<u128> = match find_index(tasks, pid) {
                Some(i) => {
                    proof {
                        lemma_first_index(views(tasks@), pid);
                    }
                    let c = tasks[i].children.clone();
                    proof {
                        assert(c@ =~= tasks@[i as int].children@);
                    }
                    c
                },
                None => Vec::new(),
            };
            let pos = match crate::kanban::first_pos(&children, task_id) {
                Some(p) => p,
                None => {
                    return false;
                },
            };
            if pos == 0 {
                return false;
            }
            proof {
                crate::kanban::lemma_pos_from(children@, task_id, 0);
            }
            match find_index(tasks, pid) {
                Some(i) => {
                    proof {
                        lemma_first_index(views(tasks@), pid);
                    }
                    swap_entries(&mut tasks[i].children, pos, pos - 1);
                    proof {
                        assert(views(tasks@) =~= update_first(ts, pid, |t: TaskView| with_children(t, swapped(t.children, pos as int, pos - 1))));
                    }
                },
                None => {},
            }
        },
        None => {
            let ghost rp = |t: TaskView| t.parent_id is None;
            proof {
                assert(rp == (|t: TaskView| t.parent_id is None));
            }
            let mut root_ids: Vec<u128> = Vec::new();
            let mut k: usize = 0;
            while k < tasks.len()
                invariant
                    k <= tasks@.len(),
                    rp == (|t: TaskView| t.parent_id is None),
                    root_ids@ == roots_upto(views(tasks@), k as int),
                decreases tasks@.len() - k,
            {
                if tasks[k].parent_id.is_none() {
                    root_ids.push(tasks[k].id);
                }
                k = k + 1;
            }
            let pos = match crate::kanban::first_pos(&root_ids, task_id) {
                Some(p) => p,
                None => {
                    return false;
                },
            };
            if pos == 0 {
                return false;
            }
            proof {
                crate::kanban::lemma_pos_from(root_ids@, task_id, 0);
            }
            let prev_id = root_ids[pos - 1];
            proof {
                lemma_ids_where_present(ts, rp, ts.len() as int);
                assert(root_ids@[pos as int] == task_id);
                assert(has_id(ts, root_ids@[pos as int]));
                assert(has_id(ts, root_ids@[pos - 1]));
                lemma_first_index(ts, task_id);
                lemma_first_index(ts, prev_id);
            }
            let cur_idx = match find_index(tasks, task_id) {
                Some(i) => i,
                None => {
                    proof {
                        assert(false);
                    }
                    return false;
                },
            };
            let prev_idx = match find_index(tasks, prev_id) {
                Some(i) => i,
                None => {
                    proof {
                        assert(false);
                    }
                    return false;
                },
            };
            swap_entries(tasks, cur_idx, prev_idx);
            proof {
                assert(views(tasks@) =~= swapped(ts, cur_idx as int, prev_idx as int));
            }
        },
    }
    true
}

/// The tasks after task `id` traded places with the sibling on the first row
/// after its subtree in the tree `rows`, or `None` when that row is missing
/// or has another parent. A parent that is not in the list leaves the tasks
/// as they are.
pub open spec fn swap_down_in(ts: Seq<TaskView>, rows: Seq<u128>, id: u128) -> Option<Seq<TaskView>> {
    let i = pos_from(rows, id, 0);
    if i < 0 {
        None
    } else {
        let e = subtree_end(rows, ts, id, i + 1);
        if e >= rows.len() {
            None
        } else {
            let next = rows[e];
            if parent_of(ts, id) != parent_of(ts, next) {
                None
            } else {
                match parent_of(ts, id) {
                    Some(pid) => match lookup(ts, pid) {
                        Some(p) => {
                            let q = pos_from(p.children, id, 0);
                            Some(update_first(ts, pid, |t: TaskView| with_children(t, swapped(t.children, q, q + 1))))
                        },
                        None => Some(ts),
                    },
                    None => Some(swapped(ts, first_index(ts, id), first_index(ts, next))),
                }
            }
        }
    }
}

/// Whether the downward swap of task `id` finds it, and the sibling after it,
/// among its parent's children.
pub open spec fn swap_down_safe_in(ts: Seq<TaskView>, rows: Seq<u128>, id: u128) -> bool {
    let i = pos_from(rows, id, 0);
    let e = subtree_end(rows, ts, id, i + 1);
    (i >= 0 && e < rows.len() && parent_of(ts, id) == parent_of(ts, rows[e])) ==> match parent_of(ts, id) {
        Some(pid) => match lookup(ts, pid) {
            Some(p) => 0 <= pos_from(p.children, id, 0) && pos_from(p.children, id, 0) + 1 < p.children.len(),
            None => true,
        },
        None => true,
    }
}

/// Trades task `task_id` with the sibling on the first row of `rows` after
/// its subtree; says whether the move went ahead.
fn swap_down_among(tasks: &mut Vec<Task>, rows: &Vec<u128>, task_id: u128) -> (changed: bool)
    requires
        forall|j: int| 0 <= j < rows@.len() ==> has_id(views(old(tasks)@), #[trigger] rows@[j]),
        swap_down_safe_in(views(old(tasks)@), rows@, task_id),
    ensures
        changed == (swap_down_in(views(old(tasks)@), rows@, task_id) is Some),
        changed ==> views(final(tasks)@) == swap_down_in(views(old(tasks)@), rows@, task_id)->0,
        !changed ==> *final(tasks) == *old(tasks),
{
    let ghost ts = views(tasks@);
    let i = match crate::kanban::first_pos(rows, task_id) {
        Some(p) => p,
        None => {
            return false;
        },
    };
    let n = rows.len();
    proof {
        crate::kanban::lemma_pos_from(rows@, task_id, 0);
    }
    let mut e: usize = i + 1;
    loop
        invariant
            i < e <= rows@.len(),
            n == rows@.len(),
            ts == views(tasks@),
            subtree_end(rows@, ts, task_id, i + 1) == subtree_end(rows@, ts, task_id, e as int),
        ensures
            i < e <= rows@.len(),
            subtree_end(rows@, ts, task_id, i + 1) == e,
        decreases rows@.len() - e,
    {
        if e >= n {
            break;
        }
        if !is_descendant_of(tasks, rows[e], task_id) {
            break;
        }
        e = e + 1;
    }
    if e >= rows.len() {
        return false;
    }
    let next_id = rows[e];
    let task_parent = parent_id_of(tasks, task_id);
    let next_parent = parent_id_of(tasks, next_id);
    let same_parent = match (task_parent, next_parent) {
        (Some(a), Some(b)) => a == b,
        (None, None) => true,
        _ => false,
    };
    if !same_parent {
        return false;
    }
    match task_parent {
        Some(pid) => {
            match find_index(tasks, pid) {
                Some(k) => {
                    proof {
                        lemma_first_index(ts, pid);
                        crate::kanban::lemma_pos_from(tasks@[k as int].children@, task_id, 0);
                    }
                    assert(ts[k as int].children == tasks@[k as int].children@);
                    assert(lookup(ts, pid) == Some(ts[k as int]));
                    let pos = match crate::kanban::first_pos(&tasks[k].children, task_id) {
                        Some(q) => q,
                        None => {
                            proof {
                                assert(false);
                            }
                            return false;
                        },
                    };
                    let clen = tasks[k].children.len();
                    swap_entries(&mut tasks[k].children, pos, pos + 1);
                    proof {
                        assert(views(tasks@) =~= update_first(ts, pid, |t: TaskView| with_children(t, swapped(t.children, pos as int, pos + 1))));
                    }
                },
                None => {},
            }
        },
        None => {
            proof {
                assert(has_id(ts, rows@[i as int]));
                assert(has_id(ts, rows@[e as int]));
                lemma_first_index(ts, task_id);
                lemma_first_index(ts, next_id);
            }
            let cur_idx = match find_index(tasks, task_id) {
                Some(k) => k,
                None => {
                    proof {
                        assert(false);
                    }
                    return false;
                },
            };
            let next_idx = match find_index(tasks, next_id) {
                Some(k) => k,
                None => {
                    proof {
                        assert(false);
                    }
                    return false;
                },
            };
            swap_entries(tasks, cur_idx, next_idx);
            proof {
                assert(views(tasks@) =~= swapped(ts, cur_idx as int, next_idx as int));
            }
        },
    }
    true
}

/// Identifiers of the shown tasks, in list order.
pub fn shown_ids_vec(app: &App) -> (r: Vec<u128>)
    ensures
        r@ == app.shown_all_ids(),
{
    let ghost p = |t: TaskView| app.shown(t);
    let mut vis: Vec<u128> = Vec::new();
    let mut k: usize = 0;
    while k < app.tasks.len()
        invariant
            k <= app.tasks@.len(),
            p == (|t: TaskView| app.shown(t)),
            vis@ == ids_where(views(app.tasks@), p, k as int),
        decreases app.tasks@.len() - k,
    {
        if app.task_visible(&app.tasks[k]) {
            vis.push(app.tasks[k].id);
        }
        k = k + 1;
    }
    vis
}

impl App {
    /// Identifiers of the shown tasks, in list order.
    pub open spec fn shown_all_ids(&self) -> Seq<u128> {
        ids_where(views(self.tasks@), |t: TaskView| self.shown(t), self.tasks@.len() as int)
    }

    /// The rows of the tree view with every fold open, in preorder.
    pub open spec fn tree_rows(&self) -> Seq<u128> {
        visible_walk_order(views(self.tasks@), self.shown_all_ids())
    }

    /// The rows of the tree view with every fold open, in preorder.
    pub fn dfs_visible_ids(&self) -> (r: Vec<u128>)
        ensures
            r@ == self.tree_rows(),
    {
        let vis = shown_ids_vec(self);
        walk_ids(&self.tasks, &Some(vis))
    }

    /// The tasks after `tree_swap_up`, when it swaps anything.
    pub open spec fn swap_up_tasks(&self) -> Option<Seq<TaskView>> {
        match self.selected(self.focused_col) {
            None => None,
            Some(id) => swap_up_in(views(self.tasks@), id),
        }
    }

    /// `new` is `old` after a sibling swap in the tree view (`swap` the
    /// tasks produced, if any): an undo point is saved, and the cursor follows
    /// the task.
    pub open spec fn swapped_app(old: App, saved: App, new: App, swap: Option<Seq<TaskView>>) -> bool {
        &&& stack_views(saved.undo_stack@) == undo_pushed(stack_views(old.undo_stack@), views(old.tasks@))
        &&& saved.redo_stack@.len() == 0
        &&& saved == (App { undo_stack: saved.undo_stack, redo_stack: saved.redo_stack, ..old })
        &&& match swap {
            None => new == saved,
            Some(ts2) => {
                let id = old.selected(old.focused_col)->0;
                &&& views(new.tasks@) == ts2
                &&& new.cursor@ == App::followed(App { cursor: old.cursor, ..new }, old.focused_col, id)
                &&& new == (App { tasks: new.tasks, cursor: new.cursor, ..saved })
            },
        }
    }

    /// The cursors once the cursor of column `col` is put on task `id`, when
    /// the column shows it.
    pub open spec fn followed(app: App, col: Column, id: u128) -> Seq<usize> {
        App::followed_from(app, app.cursor@, col, id)
    }

    /// The cursors `cur` once the cursor of column `col` is put on task `id`,
    /// when the column of `app` shows it.
    pub open spec fn followed_from(app: App, cur: Seq<usize>, col: Column, id: u128) -> Seq<usize> {
        let vis = tasks_of(views(app.tasks@), app.visible_order(col));
        let p = crate::status::position_in(vis, id);
        if p >= 0 {
            cur.update(column_index(col), p as usize)
        } else {
            cur
        }
    }

    /// Puts the cursor of column `col` on task `id`, when the column shows it.
    pub(crate) fn follow_task(&mut self, col: Column, id: u128)
        ensures
            final(self).cursor@ == App::followed(*old(self), col, id),
            (*final(self) == (App { cursor: final(self).cursor, ..*old(self) })),
    {
        let visible = self.visible_tasks_for(col);
        proof {
            assert(deref_all(visible@) =~= tasks_of(views(self.tasks@), self.visible_order(col)));
        }
        match crate::status::position_of(&visible, id) {
            Some(p) => {
                self.cursor[Self::col_index(col)] = p;
                proof {
                    assert(self.cursor@ =~= old(self).cursor@.update(column_index(col), p as usize));
                }
            },
            None => {},
        }
    }

    /// What `tree_swap_up` makes of `old`: the state `new`.
    pub open spec fn tree_swap_up_done(old: App, new: App) -> bool {
        &&& (exists|saved: App| App::swapped_app(old, saved, new, old.swap_up_tasks()))
    }

    /// Moves the cursor's task one row up among its siblings (top-level tasks
    /// swap places in the list).
    pub fn tree_swap_up(&mut self)
        ensures
            App::tree_swap_up_done(*old(self), *final(self)),
    {
        self.push_undo();
        let ghost saved = *self;
        proof {
            App::lemma_view_frame(&*old(self), &saved);
        }
        let task_id = match self.selected_task_id(self.focused_col) {
            Some(id) => id,
            None => {
                proof {
                    assert(App::swapped_app(*old(self), saved, *self, old(self).swap_up_tasks()));
                }
                return;
            },
        };
        if !swap_up_among(&mut self.tasks, task_id) {
            proof {
                assert(App::swapped_app(*old(self), saved, *self, old(self).swap_up_tasks()));
            }
            return;
        }
        let ghost mid = *self;
        self.follow_task(self.focused_col, task_id);
        proof {
            App::lemma_view_frame(&mid, &*self);
            assert(App::swapped_app(*old(self), saved, *self, old(self).swap_up_tasks()));
        }
    }
    /// The tasks after `tree_swap_down`, when it moves anything.
    pub open spec fn swap_down_tasks(&self) -> Option<Seq<TaskView>> {
        match self.selected(self.focused_col) {
            None => None,
            Some(id) => swap_down_in(views(self.tasks@), self.tree_rows(), id),
        }
    }

    /// Whether `tree_swap_down` finds the task and its next sibling among the
    /// parent's children.
    pub open spec fn swap_down_safe(&self) -> bool {
        match self.selected(self.focused_col) {
            None => true,
            Some(id) => swap_down_safe_in(views(self.tasks@), self.tree_rows(), id),
        }
    }

    /// What `tree_swap_down` makes of `old`: the state `new`.
    pub open spec fn tree_swap_down_done(old: App, new: App) -> bool {
        &&& (exists|saved: App| App::swapped_app(old, saved, new, old.swap_down_tasks()))
    }

    /// Moves the cursor's task one row down in the tree view, past its whole
    /// subtree, when the row after that subtree is a sibling.
    pub fn tree_swap_down(&mut self)
        requires
            old(self).swap_down_safe(),
        ensures
            App::tree_swap_down_done(*old(self), *final(self)),
    {
        self.push_undo();
        let ghost saved = *self;
        proof {
            App::lemma_view_frame(&*old(self), &saved);
        }
        let dfs = self.dfs_visible_ids();
        let task_id = match self.selected_task_id(self.focused_col) {
            Some(id) => id,
            None => {
                proof {
                    assert(App::swapped_app(*old(self), saved, *self, old(self).swap_down_tasks()));
                }
                return;
            },
        };
        proof {
            let ts = views(self.tasks@);
            let v = self.shown_all_ids();
            crate::tree::lemma_walk_listed(ts, v, 0);
            lemma_ids_where_present(ts, |t: TaskView| self.shown(t), ts.len() as int);
            assert((|t: TaskView| saved.shown(t)) =~= (|t: TaskView| old(self).shown(t)));
            assert(saved.tree_rows() == old(self).tree_rows());
            assert forall|j: int| 0 <= j < dfs@.len() implies has_id(ts, #[trigger] dfs@[j]) by {
                assert(v.contains(dfs@[j]));
                let w = choose|w: int| 0 <= w < v.len() && v[w] == dfs@[j];
                assert(has_id(ts, v[w]));
            }
        }
        if !swap_down_among(&mut self.tasks, &dfs, task_id) {
            proof {
                assert(App::swapped_app(*old(self), saved, *self, old(self).swap_down_tasks()));
            }
            return;
        }
        let ghost mid = *self;
        self.follow_task(self.focused_col, task_id);
        proof {
            App::lemma_view_frame(&mid, &*self);
            assert(App::swapped_app(*old(self), saved, *self, old(self).swap_down_tasks()));
        }
    }
}

} // verus!
