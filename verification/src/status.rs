//! Status changes: moving tasks between columns and deriving parents' status
//! from their children.

use vstd::prelude::*;

use crate::board::{App, Column, column_index, column_next, column_prev, column_status, column_of_status, status_column};
use crate::kanban::deref_all;
use crate::outside::{now_millis, valid_ms};
use crate::task::{Status, Task, TaskView, transitioned, views};
use crate::tree::{find_index, first_index, lemma_first_index, lookup, parent_id_of, parent_of};

verus! {

/// Whether some child listed in `kids` (found by identifier) has status `s`.
pub open spec fn any_child_with(ts: Seq<TaskView>, kids: Seq<u128>, s: Status) -> bool {
    exists|i: int|
        0 <= i < kids.len() && (#[trigger] lookup(ts, kids[i]) matches Some(c) && c.status == s)
}

/// The status a parent takes from its children: Todo if any child is Todo,
/// else Doing if any child is Doing, else Done.
pub open spec fn derived_status(ts: Seq<TaskView>, kids: Seq<u128>) -> Status {
    if any_child_with(ts, kids, Status::Todo) {
        Status::Todo
    } else if any_child_with(ts, kids, Status::Doing) {
        Status::Doing
    } else {
        Status::Done
    }
}

/// Walks up from `cur`, giving each ancestor the status derived from its
/// children, and stops at the first one that already has it (or at the top).
/// `fuel` bounds the number of steps.
pub open spec fn propagate(ts: Seq<TaskView>, cur: Option<u128>, now: i64, fuel: nat) -> Seq<TaskView>
    decreases fuel,
{
    if fuel == 0 {
        ts
    } else {
        match cur {
            None => ts,
            Some(pid) => {
                let i = first_index(ts, pid);
                if i < 0 || i >= ts.len() {
                    ts
                } else {
                    let d = derived_status(ts, ts[i].children);
                    if ts[i].status != d {
                        propagate(
                            ts.update(i, transitioned(ts[i], d, now)),
                            ts[i].parent_id,
                            now,
                            (fuel - 1) as nat,
                        )
                    } else {
                        ts
                    }
                }
            },
        }
    }
}

/// The tasks after propagating upward from the parent of `child`.
pub open spec fn propagate_up(ts: Seq<TaskView>, child: u128, now: i64) -> Seq<TaskView> {
    propagate(ts, parent_of(ts, child), now, ts.len())
}

/// The tasks after the first task `id` changed to `s` at `now`.
pub open spec fn set_status(ts: Seq<TaskView>, id: u128, s: Status, now: i64) -> Seq<TaskView> {
    let i = first_index(ts, id);
    if 0 <= i < ts.len() {
        ts.update(i, transitioned(ts[i], s, now))
    } else {
        ts
    }
}

/// Marks every task below `id` with `s`, children before grandchildren in
/// each branch. `fuel` bounds the depth.
pub open spec fn cascade(ts: Seq<TaskView>, id: u128, s: Status, now: i64, fuel: nat) -> Seq<TaskView>
    decreases fuel, 0int, 0int,
{
    if fuel == 0 {
        ts
    } else {
        let kids = match lookup(ts, id) {
            Some(t) => t.children,
            None => Seq::empty(),
        };
        cascade_kids(ts, kids, 0, s, now, (fuel - 1) as nat)
    }
}

pub open spec fn cascade_kids(
    ts: Seq<TaskView>,
    kids: Seq<u128>,
    i: int,
    s: Status,
    now: i64,
    fuel: nat,
) -> Seq<TaskView>
    decreases fuel, 1int, kids.len() - i,
{
    if i < 0 || i >= kids.len() {
        ts
    } else {
        let ts1 = set_status(ts, kids[i], s, now);
        cascade_kids(cascade(ts1, kids[i], s, now, fuel), kids, i + 1, s, now, fuel)
    }
}

/// Changes the status of task `idx` to `s`, recorded at `now`.
fn transition_index(tasks: &mut Vec<Task>, idx: usize, s: Status, now: i64)
    requires
        idx < old(tasks)@.len(),
    ensures
        final(tasks)@.len() == old(tasks)@.len(),
        views(final(tasks)@) == views(old(tasks)@).update(
            idx as int,
            transitioned(views(old(tasks)@)[idx as int], s, now),
        ),
{
    tasks[idx].transition_at(s, now);
    proof {
        assert(views(final(tasks)@) =~= views(old(tasks)@).update(
            idx as int,
            transitioned(views(old(tasks)@)[idx as int], s, now),
        ));
    }
}

/// Changes the status of the first task `id` to `s`, recorded at `now`.
pub fn set_status_of(tasks: &mut Vec<Task>, id: u128, s: Status, now: i64)
    ensures
        final(tasks)@.len() == old(tasks)@.len(),
        views(final(tasks)@) == set_status(views(old(tasks)@), id, s, now),
{
    match find_index(tasks, id) {
        Some(i) => {
            proof {
                lemma_first_index(views(tasks@), id);
            }
            transition_index(tasks, i, s, now);
        },
        None => {},
    }
}

/// Whether some child in `kids` has status `s`.
fn any_child_status(tasks: &Vec<Task>, kids: &Vec<u128>, s: Status) -> (r: bool)
    ensures
        r == any_child_with(views(tasks@), kids@, s),
{
    let mut i: usize = 0;
    while i < kids.len()
        invariant
            i <= kids@.len(),
            forall|j: int|
                0 <= j < i ==> !(#[trigger] lookup(views(tasks@), kids@[j]) matches Some(c) && c.status
                    == s),
        decreases kids@.len() - i,
    {
        match find_index(tasks, kids[i]) {
            Some(k) => {
                proof {
                    lemma_first_index(views(tasks@), kids@[i as int]);
                }
                if tasks[k].status == s {
                    proof {
                        assert(lookup(views(tasks@), kids@[i as int]) matches Some(c) && c.status == s);
                    }
                    return true;
                }
            },
            None => {},
        }
        i = i + 1;
    }
    false
}

/// The status derived from the children `kids`.
fn derive_status(tasks: &Vec<Task>, kids: &Vec<u128>) -> (s: Status)
    ensures
        s == derived_status(views(tasks@), kids@),
{
    if any_child_status(tasks, kids, Status::Todo) {
        Status::Todo
    } else if any_child_status(tasks, kids, Status::Doing) {
        Status::Doing
    } else {
        Status::Done
    }
}

/// Gives each ancestor of `child_id` the status derived from its children,
/// stopping at the first that already has it.
pub fn propagate_status_up(tasks: &mut Vec<Task>, child_id: u128, now: i64)
    ensures
        final(tasks)@.len() == old(tasks)@.len(),
        views(final(tasks)@) == propagate_up(views(old(tasks)@), child_id, now),
{
    let ghost n = tasks@.len();
    let mut current = parent_id_of(tasks, child_id);
    let mut fuel: usize = tasks.len();
    while fuel > 0
        invariant
            tasks@.len() == n,
            n == old(tasks)@.len(),
            fuel <= n,
            propagate_up(views(old(tasks)@), child_id, now) == propagate(
                views(tasks@),
                current,
                now,
                fuel as nat,
            ),
        decreases fuel,
    {
        let pid = match current {
            Some(p) => p,
            None => return,
        };
        let i = match find_index(tasks, pid) {
            Some(i) => i,
            None => return,
        };
        proof {
            lemma_first_index(views(tasks@), pid);
        }
        let d = derive_status(tasks, &tasks[i].children);
        if tasks[i].status != d {
            let next = tasks[i].parent_id;
            transition_index(tasks, i, d, now);
            current = next;
            fuel = fuel - 1;
        } else {
            return;
        }
    }
}

/// Marks every task below `id` with `s`.
pub fn cascade_status_down(tasks: &mut Vec<Task>, id: u128, s: Status, now: i64, fuel: usize)
    ensures
        final(tasks)@.len() == old(tasks)@.len(),
        views(final(tasks)@) == cascade(views(old(tasks)@), id, s, now, fuel as nat),
    decreases fuel,
{
    if fuel == 0 {
        return;
    }
    let kids: Vec<u128> = match find_index(tasks, id) {
        Some(i) => {
            proof {
                lemma_first_index(views(tasks@), id);
            }
            tasks[i].children.clone()
        },
        None => Vec::new(),
    };
    proof {
        assert(kids@ == (match lookup(views(old(tasks)@), id) {
            Some(t) => t.children,
            None => Seq::<u128>::empty(),
        }));
    }
    let ghost f = (fuel - 1) as nat;
    let mut i: usize = 0;
    while i < kids.len()
        invariant
            i <= kids@.len(),
            fuel > 0,
            f == fuel - 1,
            tasks@.len() == old(tasks)@.len(),
            cascade(views(old(tasks)@), id, s, now, fuel as nat) == cascade_kids(
                views(tasks@),
                kids@,
                i as int,
                s,
                now,
                f,
            ),
        decreases kids@.len() - i,
    {
        let c = kids[i];
        set_status_of(tasks, c, s, now);
        cascade_status_down(tasks, c, s, now, fuel - 1);
        i = i + 1;
    }
}

/// The position of task `id` in a displayed list, or -1.
pub open spec fn position_in(list: Seq<TaskView>, id: u128) -> int {
    first_index(list, id)
}

/// The tasks after each of `ids[..k]` in turn changed to `s` and propagated upward.
pub open spec fn apply_all(ts: Seq<TaskView>, ids: Seq<u128>, k: int, s: Status, now: i64) -> Seq<TaskView>
    decreases k,
{
    if k <= 0 {
        ts
    } else {
        let prev = apply_all(ts, ids, k - 1, s, now);
        propagate_up(set_status(prev, ids[k - 1], s, now), ids[k - 1], now)
    }
}

/// Position of task `id` in `list`.
pub(crate) fn position_of(list: &Vec<&Task>, id: u128) -> (r: Option<usize>)
    ensures
        match r {
            Some(p) => p as int == position_in(deref_all(list@), id),
            None => position_in(deref_all(list@), id) == -1,
        },
{
    let ghost l = deref_all(list@);
    let mut i: usize = 0;
    while i < list.len()
        invariant
            i <= list@.len(),
            l == deref_all(list@),
            crate::tree::index_from(l, id, 0) == crate::tree::index_from(l, id, i as int),
        decreases list@.len() - i,
    {
        if list[i].id == id {
            return Some(i);
        }
        i = i + 1;
    }
    None
}

impl App {
    /// `new` is `old` after the cursor's task of the focused column moved to
    /// column `dest` at time `now`.
    pub open spec fn moved_to(old: App, new: App, dest: Column, now: i64) -> bool {
        let col = old.focused_col;
        if dest == col || old.selected(col) is None {
            new == old
        } else {
            let id = old.selected(col)->0;
            let c1 = old.cursor@.update(
                column_index(col),
                App::clamped(old.cursor@[column_index(col)], new.nav_list(col).len()),
            );
            let p = position_in(new.nav_list(dest), id);
            &&& views(new.tasks@) == propagate_up(
                set_status(views(old.tasks@), id, column_status(dest), now),
                id,
                now,
            )
            &&& new.focused_col == dest
            &&& new.cursor@ == (if p >= 0 {
                c1.update(column_index(dest), p as usize)
            } else {
                c1
            })
            &&& new == (App {
                tasks: new.tasks,
                cursor: new.cursor,
                focused_col: new.focused_col,
                ..old
            })
        }
    }

    fn move_selected_to(&mut self, dest: Column, now: i64)
        ensures
            App::moved_to(*old(self), *final(self), dest, now),
    {
        let col = self.focused_col;
        if dest == col {
            return;
        }
        let id = match self.selected_task_id(col) {
            Some(id) => id,
            None => return,
        };
        let new_status = dest.status();
        set_status_of(&mut self.tasks, id, new_status, now);
        propagate_status_up(&mut self.tasks, id, now);
        let ghost mid = *self;
        self.clamp_cursor(col);
        let ghost mid2 = *self;
        proof {
            App::lemma_view_frame(&mid, &mid2);
        }
        let list = self.nav_tasks_for(dest);
        match position_of(&list, id) {
            Some(pos) => {
                self.cursor[Self::col_index(dest)] = pos;
            },
            None => {},
        }
        self.focused_col = dest;
        proof {
            App::lemma_view_frame(&mid2, &*self);
            App::lemma_view_frame(&mid, &*self);
            let c1 = old(self).cursor@.update(
                column_index(col),
                App::clamped(old(self).cursor@[column_index(col)], self.nav_list(col).len()),
            );
            assert(mid2.cursor@ == c1);
            let p = position_in(self.nav_list(dest), id);
            assert(self.cursor@ =~= (if p >= 0 {
                c1.update(column_index(dest), p as usize)
            } else {
                c1
            }));
        }
    }

    /// What `move_selected_right` makes of `old`: the state `new`.
    pub open spec fn move_selected_right_done(old: App, new: App) -> bool {
        &&& (exists|now: i64|
            valid_ms(now) && App::moved_to(
                old,
                new,
                column_next(old.focused_col),
                now,
            ))
    }

    /// Moves the cursor's task one column to the right, changing its status.
    pub fn move_selected_right(&mut self)
        ensures
            App::move_selected_right_done(*old(self), *final(self)),
    {
        let now = now_millis();
        let dest = self.focused_col.next();
        self.move_selected_to(dest, now);
    }

    /// What `move_selected_left` makes of `old`: the state `new`.
    pub open spec fn move_selected_left_done(old: App, new: App) -> bool {
        &&& (exists|now: i64|
            valid_ms(now) && App::moved_to(
                old,
                new,
                column_prev(old.focused_col),
                now,
            ))
    }

    /// Moves the cursor's task one column to the left, changing its status.
    pub fn move_selected_left(&mut self)
        ensures
            App::move_selected_left_done(*old(self), *final(self)),
    {
        let now = now_millis();
        let dest = self.focused_col.prev();
        self.move_selected_to(dest, now);
    }

    /// `new` is `old` after task `id` changed to `s` (with `pre` the tasks
    /// before that change) in the tree view.
    pub open spec fn status_set(old: App, pre: Seq<TaskView>, new: App, id: u128, s: Status, now: i64) -> bool {
        let old_col = old.focused_col;
        let new_col = status_column(s);
        let c1 = old.cursor@.update(
            column_index(old_col),
            App::clamped(old.cursor@[column_index(old_col)], new.nav_list(old_col).len()),
        );
        let vis = crate::board::tasks_of(views(new.tasks@), new.visible_order(new_col));
        let p = position_in(vis, id);
        &&& views(new.tasks@) == propagate_up(set_status(pre, id, s, now), id, now)
        &&& new.focused_col == new_col
        &&& new.cursor@ == (if p >= 0 {
            c1.update(column_index(new_col), p as usize)
        } else {
            c1
        })
        &&& new == (App { tasks: new.tasks, cursor: new.cursor, focused_col: new.focused_col, ..old })
    }

    #[verifier::rlimit(40)]
    fn tree_set_status(&mut self, id: u128, new_status: Status, now: i64)
        ensures
            App::status_set(*old(self), views(old(self).tasks@), *final(self), id, new_status, now),
    {
        let old_col = self.focused_col;
        let new_col = column_of_status(new_status);
        set_status_of(&mut self.tasks, id, new_status, now);
        propagate_status_up(&mut self.tasks, id, now);
        let ghost mid = *self;
        self.clamp_cursor(old_col);
        let ghost mid2 = *self;
        proof {
            App::lemma_view_frame(&mid, &mid2);
        }
        let list = self.visible_tasks_for(new_col);
        proof {
            assert(deref_all(list@) =~= crate::board::tasks_of(views(self.tasks@), self.visible_order(new_col)));
        }
        match position_of(&list, id) {
            Some(pos) => {
                self.cursor[Self::col_index(new_col)] = pos;
            },
            None => {},
        }
        self.focused_col = new_col;
        proof {
            App::lemma_view_frame(&mid2, &*self);
            App::lemma_view_frame(&mid, &*self);
            let c1 = old(self).cursor@.update(
                column_index(old_col),
                App::clamped(old(self).cursor@[column_index(old_col)], self.nav_list(old_col).len()),
            );
            assert(mid2.cursor@ == c1);
            assert(self.visible_order(new_col) == mid2.visible_order(new_col));
            let vis = crate::board::tasks_of(views(self.tasks@), self.visible_order(new_col));
            let p = position_in(vis, id);
            assert(self.cursor@ =~= (if p >= 0 {
                c1.update(column_index(new_col), p as usize)
            } else {
                c1
            }));
        }
    }

    /// What `tree_toggle_doing` makes of `old`: the state `new`.
    pub open spec fn tree_toggle_doing_done(old: App, new: App) -> bool {
        &&& (old.selected(old.focused_col) is None ==> new == old)
        &&& (old.selected(old.focused_col) matches Some(id) ==> exists|now: i64|
            valid_ms(now) && App::status_set(
                old,
                views(old.tasks@),
                new,
                id,
                if old.find(id) matches Some(t) && t.status == Status::Doing {
                    Status::Todo
                } else {
                    Status::Doing
                },
                now,
            ))
    }

    /// Toggles the cursor's task between Doing and Todo (tree view),
    /// deriving its ancestors' status.
    pub fn tree_toggle_doing(&mut self)
        ensures
            App::tree_toggle_doing_done(*old(self), *final(self)),
    {
        let id = match self.selected_task_id(self.focused_col) {
            Some(id) => id,
            None => return,
        };
        let current = match self.task_ref(id) {
            Some(t) => t.status,
            None => Status::Todo,
        };
        let new_status = if current == Status::Doing {
            Status::Todo
        } else {
            Status::Doing
        };
        let now = now_millis();
        self.tree_set_status(id, new_status, now);
    }

    /// Toggles the cursor's task between Done and Todo (tree view). Marking it
    /// Done marks every task below it Done too.
    pub fn tree_toggle_done(&mut self)
        ensures
            old(self).selected(old(self).focused_col) is None ==> *final(self) == *old(self),
            old(self).selected(old(self).focused_col) matches Some(id) ==> exists|now: i64|
                #![trigger valid_ms(now)]
                {
                    let done = !(old(self).find(id) matches Some(t) && t.status == Status::Done);
                    let pre = if done {
                        cascade(views(old(self).tasks@), id, Status::Done, now, old(self).tasks@.len() as nat)
                    } else {
                        views(old(self).tasks@)
                    };
                    valid_ms(now) && App::status_set(
                        *old(self),
                        pre,
                        *final(self),
                        id,
                        if done { Status::Done } else { Status::Todo },
                        now,
                    )
                },
    {
        let id = match self.selected_task_id(self.focused_col) {
            Some(id) => id,
            None => return,
        };
        let current = match self.task_ref(id) {
            Some(t) => t.status,
            None => Status::Todo,
        };
        let new_status = if current == Status::Done {
            Status::Todo
        } else {
            Status::Done
        };
        let now = now_millis();
        let ghost o = *self;
        if new_status == Status::Done {
            let n = self.tasks.len();
            cascade_status_down(&mut self.tasks, id, Status::Done, now, n);
        }
        let ghost pre = views(self.tasks@);
        self.tree_set_status(id, new_status, now);
        proof {
            assert(App::status_set(o, pre, *self, id, new_status, now));
        }
    }

    /// What `visual_apply_status` makes of `old`: the state `new`.
    pub open spec fn visual_apply_status_done(old: App, new: App, ids: Seq<u128>, status: Status) -> bool {
        &&& (exists|now: i64| valid_ms(now) && views(new.tasks@) == apply_all(
            views(old.tasks@),
            ids,
            ids.len() as int,
            status,
            now,
        ))
        &&& (new.focused_col == status_column(status))
        &&& (new.cursor@ == seq![
            App::clamped(old.cursor@[0], new.nav_list(Column::Todo).len()),
            App::clamped(old.cursor@[1], new.nav_list(Column::Doing).len()),
            App::clamped(old.cursor@[2], new.nav_list(Column::Done).len()),
        ])
        &&& ((new == (App {
            tasks: new.tasks,
            cursor: new.cursor,
            focused_col: new.focused_col,
            ..old
        })))
    }

    /// Sets `status` on every task of `ids`, propagating upward after each,
    /// then focuses the status's column.
    pub fn visual_apply_status(&mut self, ids: &[u128], status: Status)
        ensures
            App::visual_apply_status_done(*old(self), *final(self), ids@, status),
    {
        let now = now_millis();
        let mut k: usize = 0;
        while k < ids.len()
            invariant
                k <= ids@.len(),
                views(self.tasks@) == apply_all(views(old(self).tasks@), ids@, k as int, status, now),
                (*self == (App { tasks: self.tasks, ..*old(self) })),
            decreases ids@.len() - k,
        {
            set_status_of(&mut self.tasks, ids[k], status, now);
            propagate_status_up(&mut self.tasks, ids[k], now);
            k = k + 1;
        }
        self.focused_col = column_of_status(status);
        let ghost mid = *self;
        self.clamp_all_cursors();
        proof {
            App::lemma_view_frame(&mid, &*self);
        }
    }
}

} // verus!
