//! Switching between the board and the tree (planning) view, and the
//! explicit order of the Doing column.

use vstd::prelude::*;

use crate::board::{App, Column, ViewMode, column_index, column_of_status, same_text, status_column};
use crate::filter::only_slot;
use crate::kanban::{deref_all, has_doing_leaf, pos_from};
use crate::sorting::{is_stable_order, lemma_stable_order_unique, stable_order};
use crate::status::position_in;
use crate::task::{Status, Task, TaskView, views};
use crate::tree::{contains_id, full_ids, full_order, order_key, order_key_of};

verus! {

/// The first task of `l` from `i` on whose project is `p`.
pub open spec fn first_of_project(l: Seq<TaskView>, p: Seq<char>, i: int) -> Option<u128>
    decreases l.len() - i,
    when 0 <= i
{
    if i >= l.len() {
        None
    } else if l[i].project == p {
        Some(l[i].id)
    } else {
        first_of_project(l, p, i + 1)
    }
}

/// The first Todo leaf of project `p` among the first `k` tasks, by key
/// `key` (the first of equal keys).
pub open spec fn first_todo_leaf(ts: Seq<TaskView>, p: Seq<char>, key: spec_fn(u128) -> usize, k: int) -> Option<
    TaskView,
>
    decreases k,
{
    if k <= 0 {
        None
    } else {
        let prev = first_todo_leaf(ts, p, key, k - 1);
        let t = ts[k - 1];
        if t.project == p && t.status == Status::Todo && t.children.len() == 0 && (prev matches Some(b) ==> key(
            t.id,
        ) < key(b.id)) {
            Some(t)
        } else {
            prev
        }
    }
}

impl App {
    /// Position key of a task in the depth-first order of the whole forest.
    pub open spec fn dfs_key(&self) -> spec_fn(u128) -> usize {
        |id: u128| order_key(full_order(views(self.tasks@)), id)
    }

    /// Whether the Todo leaf `id` would show on the board without being
    /// forced there: its project has no Doing leaf and it is that project's
    /// first Todo leaf in depth-first order.
    pub open spec fn appears_normally(&self, id: u128) -> bool {
        let ts = views(self.tasks@);
        match self.find(id) {
            None => false,
            Some(t) => t.status == Status::Todo && t.children.len() == 0 && !has_doing_leaf(ts, t.project)
                && (first_todo_leaf(ts, t.project, self.dfs_key(), ts.len() as int) matches Some(f) && f.id == id),
        }
    }

    /// Whether the Todo leaf `id` would show on the board without being forced there.
    pub fn would_appear_in_todo_board_normally(&self, task_id: u128) -> (r: bool)
        ensures
            r == self.appears_normally(task_id),
    {
        let task = match self.task_ref(task_id) {
            Some(t) => t,
            None => {
                return false;
            },
        };
        if task.status != Status::Todo || task.children.len() != 0 {
            return false;
        }
        let project = task.project.as_str();
        if crate::kanban::any_doing_leaf(&self.tasks, project) {
            return false;
        }
        let full = full_ids(&self.tasks);
        let ghost ts = views(self.tasks@);
        let ghost key = self.dfs_key();
        let mut best: Option<(u128, usize)> = None;
        let mut k: usize = 0;
        while k < self.tasks.len()
            invariant
                k <= ts.len(),
                ts == views(self.tasks@),
                key == self.dfs_key(),
                full@ == full_order(ts),
                match best {
                    Some((b, bk)) => (first_todo_leaf(ts, project@, key, k as int) matches Some(f) && f.id == b
                        && bk == key(b)),
                    None => first_todo_leaf(ts, project@, key, k as int) is None,
                },
            decreases ts.len() - k,
        {
            let t = &self.tasks[k];
            if t.status == Status::Todo && t.children.len() == 0 && same_text(t.project.as_str(), project) {
                let tk = order_key_of(&full, t.id);
                best = match best {
                    Some((b, bk)) => if tk < bk {
                        Some((t.id, tk))
                    } else {
                        Some((b, bk))
                    },
                    None => Some((t.id, tk)),
                };
            }
            k = k + 1;
        }
        match best {
            Some((b, _)) => b == task_id,
            None => false,
        }
    }

    /// `new` is `old` with the tree view on: the board's filter saved, the
    /// filter `slots`/`unc` on, and the cursors as `refocus` leaves them.
    pub open spec fn planning_entered(
        old: App,
        new: App,
        slots: Seq<bool>,
        unc: bool,
        col: Column,
        on: Option<u128>,
    ) -> bool {
        &&& new.saved_slots == old.active_slots
        &&& new.saved_show_unc == old.show_unc
        &&& new.active_slots@ == slots
        &&& new.show_unc == unc
        &&& new.cursor@ == App::refocused(new, col, on)
        &&& new == (App {
            saved_slots: new.saved_slots,
            saved_show_unc: new.saved_show_unc,
            active_slots: new.active_slots,
            show_unc: unc,
            view_mode: ViewMode::Tree,
            cursor: new.cursor,
            focused_col: col,
            tui_scroll_offset: 0,
            ..old
        })
    }

    /// What `enter_planning_for_slot_key` makes of `old`: the state `new`.
    pub open spec fn enter_planning_for_slot_key_done(old: App, new: App, slot: usize) -> bool {
        &&& (match old.projects@[slot as int] {
            None => new == old,
            Some(name) => App::planning_entered(
                old,
                new,
                only_slot(Some(slot as int)),
                false,
                Column::Todo,
                first_of_project(old.board_list(Column::Todo), name@, 0),
            ),
        })
    }

    /// Opens the tree view on project slot `slot` (when named), the Todo
    /// cursor on the first task of that project on the board's Todo column.
    pub fn enter_planning_for_slot_key(&mut self, slot: usize)
        requires
            slot < 10,
        ensures
            App::enter_planning_for_slot_key_done(*old(self), *final(self), slot),
    {
        let project_name = match &self.projects[slot] {
            Some(p) => p.clone(),
            None => {
                return;
            },
        };
        let board = self.board_refs(Column::Todo);
        let ghost l = deref_all(board@);
        let mut first: Option<u128> = None;
        let mut k: usize = 0;
        while k < board.len()
            invariant
                k <= board@.len(),
                l == deref_all(board@),
                first_of_project(l, project_name@, 0) == (match first {
                    Some(f) => Some(f),
                    None => first_of_project(l, project_name@, k as int),
                }),
            decreases board@.len() - k,
        {
            if first.is_none() && same_text(board[k].project.as_str(), project_name.as_str()) {
                first = Some(board[k].id);
            }
            k = k + 1;
        }
        self.saved_slots = self.active_slots;
        self.saved_show_unc = self.show_unc;
        self.active_slots = [false; 10];
        self.active_slots[slot] = true;
        self.show_unc = false;
        proof {
            assert(self.active_slots@ =~= only_slot(Some(slot as int)));
        }
        self.view_mode = ViewMode::Tree;
        let ghost before = *self;
        self.refocus(Column::Todo, first);
        proof {
            App::lemma_view_frame(&before, &*self);
        }
    }

    /// What `enter_planning_for_inbox_tree` makes of `old`: the state `new`.
    pub open spec fn enter_planning_for_inbox_tree_done(old: App, new: App) -> bool {
        &&& (App::planning_entered(
            old,
            new,
            only_slot(None),
            true,
            Column::Todo,
            old.first_unc_on_board(0),
        ))
    }

    /// Opens the tree view on INBOX, the Todo cursor on the first
    /// uncategorised task of the board's Todo column.
    pub fn enter_planning_for_inbox_tree(&mut self)
        ensures
            App::enter_planning_for_inbox_tree_done(*old(self), *final(self)),
    {
        let board = self.board_refs(Column::Todo);
        let ghost l = deref_all(board@);
        let mut first: Option<u128> = None;
        let mut k: usize = 0;
        while k < board.len()
            invariant
                k <= board@.len(),
                l == deref_all(board@),
                l == self.board_list(Column::Todo),
                self.first_unc_on_board(0) == (match first {
                    Some(f) => Some(f),
                    None => self.first_unc_on_board(k as int),
                }),
            decreases board@.len() - k,
        {
            if first.is_none() && self.is_unc(board[k]) {
                first = Some(board[k].id);
            }
            k = k + 1;
        }
        self.saved_slots = self.active_slots;
        self.saved_show_unc = self.show_unc;
        self.active_slots = [false; 10];
        self.show_unc = true;
        proof {
            assert(self.active_slots@ =~= only_slot(None));
        }
        self.view_mode = ViewMode::Tree;
        let ghost before = *self;
        self.refocus(Column::Todo, first);
        proof {
            App::lemma_view_frame(&before, &*self);
        }
    }

    /// The first uncategorised task of the board's Todo column from `i` on.
    pub open spec fn first_unc_on_board(&self, i: int) -> Option<u128>
        decreases self.board_list(Column::Todo).len() - i,
        when 0 <= i
    {
        let l = self.board_list(Column::Todo);
        if i >= l.len() {
            None
        } else if self.unc(l[i]) {
            Some(l[i].id)
        } else {
            self.first_unc_on_board(i + 1)
        }
    }

    /// What `enter_planning_for_last_project` makes of `old`: the state `new`.
    pub open spec fn enter_planning_for_last_project_done(old: App, new: App) -> bool {
        &&& (({
            let (col, on) = match old.forced_todo_task_id {
                Some(id) => match old.find(id) {
                    Some(t) => (status_column(t.status), Some(id)),
                    None => (Column::Todo, None),
                },
                None => (Column::Todo, None),
            };
            App::planning_entered(
                App { forced_todo_task_id: None, ..old },
                new,
                old.last_tree_slots@,
                old.last_tree_show_unc,
                col,
                on,
            )
        }))
    }

    /// Opens the tree view with the filter it last had; a task forced onto
    /// the board is forgotten and, when still in the list, gets the cursor
    /// of its status's column.
    pub fn enter_planning_for_last_project(&mut self)
        ensures
            App::enter_planning_for_last_project_done(*old(self), *final(self)),
    {
        self.saved_slots = self.active_slots;
        self.saved_show_unc = self.show_unc;
        self.active_slots = self.last_tree_slots;
        self.show_unc = self.last_tree_show_unc;
        self.view_mode = ViewMode::Tree;
        let forced_id = self.forced_todo_task_id.take();
        let (col, on) = match forced_id {
            Some(id) => match self.task_ref(id) {
                Some(task) => (column_of_status(task.status), Some(id)),
                None => (Column::Todo, None),
            },
            None => (Column::Todo, None),
        };
        let ghost before = *self;
        self.refocus(col, on);
        proof {
            App::lemma_view_frame(&before, &*self);
        }
    }
}

/// The identifiers of the Doing tasks without children among the first `k`.
pub open spec fn doing_leaf_ids(ts: Seq<TaskView>, k: int) -> Seq<u128>
    decreases k,
{
    if k <= 0 {
        Seq::empty()
    } else if ts[k - 1].status == Status::Doing && ts[k - 1].children.len() == 0 {
        doing_leaf_ids(ts, k - 1).push(ts[k - 1].id)
    } else {
        doing_leaf_ids(ts, k - 1)
    }
}

/// The entries of `order[..k]` listed in `cur`, in order.
pub open spec fn retained(order: Seq<u128>, cur: Seq<u128>, k: int) -> Seq<u128>
    decreases k,
{
    if k <= 0 {
        Seq::empty()
    } else if cur.contains(order[k - 1]) {
        retained(order, cur, k - 1).push(order[k - 1])
    } else {
        retained(order, cur, k - 1)
    }
}

/// `order` with the entries for `a` and `b` exchanged, when it lists both.
pub open spec fn swap_ids(order: Seq<u128>, a: u128, b: u128) -> Seq<u128> {
    let pa = pos_from(order, a, 0);
    let pb = pos_from(order, b, 0);
    if pa >= 0 && pb >= 0 {
        order.update(pa, order[pb]).update(pb, order[pa])
    } else {
        order
    }
}

/// `base` followed by the entries of `cur[..k]` it lacks, each once, in order.
pub open spec fn append_missing(base: Seq<u128>, cur: Seq<u128>, k: int) -> Seq<u128>
    decreases k,
{
    if k <= 0 {
        base
    } else {
        let r = append_missing(base, cur, k - 1);
        if r.contains(cur[k - 1]) {
            r
        } else {
            r.push(cur[k - 1])
        }
    }
}

impl App {
    /// The Doing leaves in depth-first order (list order among equal keys).
    pub open spec fn doing_now(&self) -> Seq<u128> {
        let ts = views(self.tasks@);
        let ids = doing_leaf_ids(ts, ts.len() as int);
        let keys = Seq::new(ids.len(), |i: int| order_key(full_order(ts), ids[i]) as u128);
        let p = choose|p: Seq<usize>| is_stable_order(keys, p);
        Seq::new(p.len(), |i: int| ids[p[i] as int])
    }

    /// The explicit Doing order once synchronised with the Doing leaves: the
    /// entries still Doing leaves, in their order, then the new ones.
    pub open spec fn synced_order(&self) -> Seq<u128> {
        let cur = self.doing_now();
        append_missing(retained(self.doing_order@, cur, self.doing_order@.len() as int), cur, cur.len() as int)
    }

    /// Brings the explicit Doing order in line with the Doing leaves,
    /// keeping the order of those already listed and adding the others in
    /// depth-first order.
    fn sync_doing_order(&mut self)
        ensures
            final(self).doing_order@ == old(self).synced_order(),
            (*final(self) == (App { doing_order: final(self).doing_order, ..*old(self) })),
    {
        let ghost ts = views(self.tasks@);
        let full = full_ids(&self.tasks);
        let mut ids: Vec<u128> = Vec::new();
        let mut k: usize = 0;
        while k < self.tasks.len()
            invariant
                k <= ts.len(),
                ts == views(self.tasks@),
                ids@ == doing_leaf_ids(ts, k as int),
            decreases ts.len() - k,
        {
            if self.tasks[k].status == Status::Doing && self.tasks[k].children.len() == 0 {
                ids.push(self.tasks[k].id);
            }
            k = k + 1;
        }
        let mut keys: Vec<u128> = Vec::new();
        let mut j: usize = 0;
        while j < ids.len()
            invariant
                j <= ids@.len(),
                full@ == full_order(ts),
                keys@.len() == j,
                forall|i: int| 0 <= i < j ==> keys@[i] == order_key(full_order(ts), ids@[i]) as u128,
            decreases ids@.len() - j,
        {
            let key = order_key_of(&full, ids[j]);
            keys.push(key as u128);
            j = j + 1;
        }
        let ghost kv = Seq::new(ids@.len(), |i: int| order_key(full_order(ts), ids@[i]) as u128);
        proof {
            assert(keys@ =~= kv);
        }
        let p = stable_order(&keys);
        proof {
            let q = choose|q: Seq<usize>| is_stable_order(kv, q);
            lemma_stable_order_unique(kv, p@, q);
        }
        let mut cur: Vec<u128> = Vec::new();
        let mut i: usize = 0;
        while i < p.len()
            invariant
                i <= p@.len(),
                is_stable_order(keys@, p@),
                keys@.len() == ids@.len(),
                cur@ == Seq::new(i as nat, |x: int| ids@[p@[x] as int]),
            decreases p@.len() - i,
        {
            cur.push(ids[p[i]]);
            i = i + 1;
            proof {
                assert(cur@ =~= Seq::new(i as nat, |x: int| ids@[p@[x] as int]));
            }
        }
        let ghost cv = cur@;
        proof {
            assert(cv =~= old(self).doing_now());
        }
        let mut kept: Vec<u128> = Vec::new();
        let ghost order = self.doing_order@;
        let mut a: usize = 0;
        while a < self.doing_order.len()
            invariant
                a <= order.len(),
                order == self.doing_order@,
                cur@ == cv,
                kept@ == retained(order, cv, a as int),
            decreases order.len() - a,
        {
            let x = self.doing_order[a];
            if contains_id(&cur, x) {
                kept.push(x);
            }
            a = a + 1;
        }
        let mut b: usize = 0;
        while b < cur.len()
            invariant
                b <= cv.len(),
                cur@ == cv,
                kept@ == append_missing(retained(order, cv, order.len() as int), cv, b as int),
            decreases cv.len() - b,
        {
            let x = cur[b];
            if !contains_id(&kept, x) {
                kept.push(x);
            }
            b = b + 1;
        }
        self.doing_order = kept;
    }

    /// Exchanges `a` and `b` in the explicit Doing order, when it lists both.
    fn swap_in_order(&mut self, a: u128, b: u128)
        ensures
            final(self).doing_order@ == swap_ids(old(self).doing_order@, a, b),
            (*final(self) == (App { doing_order: final(self).doing_order, ..*old(self) })),
    {
        proof {
            crate::kanban::lemma_pos_from(self.doing_order@, a, 0);
            crate::kanban::lemma_pos_from(self.doing_order@, b, 0);
        }
        let pa = crate::kanban::first_pos(&self.doing_order, a);
        let pb = crate::kanban::first_pos(&self.doing_order, b);
        match (pa, pb) {
            (Some(x), Some(y)) => {
                crate::edit::swap_entries(&mut self.doing_order, x, y);
            },
            _ => {},
        }
    }

    /// What `kanban_doing_swap` makes of `old`: the state `new`.
    pub open spec fn kanban_doing_swap_done(old: App, new: App, delta: i32) -> bool {
        &&& (({
            let l = old.board_list(Column::Doing);
            let cur = old.cursor@[1] as int;
            let other = if delta < 0 { cur - 1 } else { cur + 1 };
            if l.len() == 0 || other < 0 || other >= l.len() {
                new == old
            } else {
                &&& new.doing_order@ == swap_ids(old.synced_order(), l[cur].id, l[other].id)
                &&& new.cursor@ == old.cursor@.update(1, other as usize)
                &&& (new == (App {
                    doing_order: new.doing_order,
                    cursor: new.cursor,
                    ..old
                }))
            }
        }))
    }

    /// Swaps the cursor's Doing task with its neighbour above (`delta` < 0)
    /// or below in the Doing column's explicit order, after synchronising
    /// that order, and moves the cursor with it.
    pub fn kanban_doing_swap(&mut self, delta: i32)
        requires
            delta < 0 ==> (old(self).cursor@[1] == 0 || old(self).cursor@[1] < old(self).board_list(
                Column::Doing,
            ).len()),
        ensures
            App::kanban_doing_swap_done(*old(self), *final(self), delta),
    {
        let cur = self.cursor[1];
        let tasks = self.board_refs(Column::Doing);
        let len = tasks.len();
        if len == 0 {
            return;
        }
        let other = if delta < 0 {
            if cur == 0 {
                return;
            }
            cur - 1
        } else {
            if cur >= len - 1 {
                return;
            }
            cur + 1
        };
        let id_a = tasks[cur].id;
        let id_b = tasks[other].id;
        self.sync_doing_order();
        self.swap_in_order(id_a, id_b);
        self.cursor[1] = other;
    }
}

impl App {
    /// The cursor's task of the focused column and its status, when in the list.
    pub open spec fn selected_info(&self) -> Option<(u128, Status)> {
        match self.selected(self.focused_col) {
            Some(id) => match self.find(id) {
                Some(t) => Some((id, t.status)),
                None => None,
            },
            None => None,
        }
    }

    /// The board as `enter_kanban_for_selected` sets it up, before the cursors move.
    pub open spec fn kanban_entered(old: App) -> App {
        let info = old.selected_info();
        let forced = match info {
            Some((id, st)) => if st == Status::Todo && old.find(id)->0.children.len() == 0
                && !old.appears_normally(id) {
                Some(id)
            } else {
                old.forced_todo_task_id
            },
            None => old.forced_todo_task_id,
        };
        App {
            last_tree_slots: old.active_slots,
            last_tree_show_unc: old.show_unc,
            forced_todo_task_id: forced,
            active_slots: old.saved_slots,
            show_unc: old.saved_show_unc,
            view_mode: ViewMode::Board,
            focused_col: match info {
                Some((_, st)) => status_column(st),
                None => old.focused_col,
            },
            ..old
        }
    }

    /// Sets the board up as `kanban_entered` says, given the cursor's task.
    fn set_up_board(&mut self, info: Option<(u128, Status)>)
        requires
            info == old(self).selected_info(),
        ensures
            *final(self) == App::kanban_entered(*old(self)),
    {
        self.last_tree_slots = self.active_slots;
        self.last_tree_show_unc = self.show_unc;
        match info {
            Some((id, st)) => {
                if st == Status::Todo {
                    let leaf = match self.task_ref(id) {
                        Some(t) => t.children.len() == 0,
                        None => false,
                    };
                    if leaf && !self.would_appear_in_todo_board_normally(id) {
                        self.forced_todo_task_id = Some(id);
                    }
                }
                self.focused_col = column_of_status(st);
            },
            None => {},
        }
        self.active_slots = self.saved_slots;
        self.show_unc = self.saved_show_unc;
        self.view_mode = ViewMode::Board;
    }

    /// Puts the cursor of board column `col` on task `id`, when it shows it.
    fn board_cursor_on(&mut self, col: Column, id: u128)
        ensures
            ({
                let p = position_in(old(self).board_list(col), id);
                final(self).cursor@ == (if p >= 0 {
                    old(self).cursor@.update(column_index(col), p as usize)
                } else {
                    old(self).cursor@
                })
            }),
            *final(self) == (App { cursor: final(self).cursor, ..*old(self) }),
    {
        let board = self.board_refs(col);
        match crate::status::position_of(&board, id) {
            Some(p) => {
                self.cursor[Self::col_index(col)] = p;
                proof {
                    assert(self.cursor@ =~= old(self).cursor@.update(column_index(col), p as usize));
                }
            },
            None => {},
        }
    }

    /// What `enter_kanban_for_selected` makes of `old`: the state `new`.
    pub open spec fn enter_kanban_for_selected_done(old: App, new: App) -> bool {
        &&& (({
            let m = App::kanban_entered(old);
            let c = match old.selected_info() {
                Some((id, st)) => {
                    let col = status_column(st);
                    let p = position_in(m.board_list(col), id);
                    if p >= 0 {
                        old.cursor@.update(column_index(col), p as usize)
                    } else {
                        old.cursor@
                    }
                },
                None => old.cursor@,
            };
            &&& new.cursor@ == m.clamp_all_of(c)
            &&& new == (App { cursor: new.cursor, ..m })
        }))
    }

    /// Leaves the tree for the board, restoring the board's filter and saving
    /// the tree's; a Todo leaf under the cursor that the board would not show
    /// is forced onto it, and the board's cursor goes onto the task.
    pub fn enter_kanban_for_selected(&mut self)
        ensures
            App::enter_kanban_for_selected_done(*old(self), *final(self)),
    {
        let info: Option<(u128, Status)> = match self.selected_task_id(self.focused_col) {
            Some(id) => match self.task_ref(id) {
                Some(t) => Some((id, t.status)),
                None => None,
            },
            None => None,
        };
        self.set_up_board(info);
        match info {
            Some((id, st)) => {
                let col = column_of_status(st);
                self.board_cursor_on(col, id);
            },
            None => {},
        }
        let ghost mid = *self;
        self.clamp_all_cursors();
        proof {
            App::lemma_view_frame(&mid, &*self);
        }
    }
}

} // verus!
