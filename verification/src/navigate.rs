//! Cursor movement and selection on the board and in the tree.

use vstd::prelude::*;

use crate::board::{App, Column, ViewMode, column_index, column_next, column_prev, tasks_of};
use crate::kanban::deref_all;
use crate::task::{Task, TaskView, views};
use crate::tree::lemma_forest_present;

verus! {

impl App {
    /// The tasks a column lists in the current view: the board's leaves on
    /// the board, every shown task in tree order in the tree.
    pub open spec fn nav_list(&self, col: Column) -> Seq<TaskView> {
        match self.view_mode {
            ViewMode::Board => self.board_list(col),
            ViewMode::Tree => tasks_of(views(self.tasks@), self.visible_order(col)),
        }
    }

    /// The task under the cursor of a column, if the cursor is on one.
    pub open spec fn selected(&self, col: Column) -> Option<u128> {
        let l = self.nav_list(col);
        let c = self.cursor@[column_index(col)];
        if c < l.len() {
            Some(l[c as int].id)
        } else {
            None
        }
    }

    /// The cursors `c`, each pulled back onto the list its column shows.
    pub open spec fn clamp_all_of(&self, c: Seq<usize>) -> Seq<usize> {
        seq![
            App::clamped(c[0], self.nav_list(Column::Todo).len()),
            App::clamped(c[1], self.nav_list(Column::Doing).len()),
            App::clamped(c[2], self.nav_list(Column::Done).len()),
        ]
    }

    /// A cursor pulled back onto the list of `len` entries.
    pub open spec fn clamped(c: usize, len: nat) -> usize {
        if len == 0 {
            0
        } else if c >= len {
            (len - 1) as usize
        } else {
            c
        }
    }

    /// What the board and tree show depends only on the tasks, the filters, the
    /// forced task, the explicit Doing order, the sort and the view.
    pub proof fn lemma_view_frame(a: &App, b: &App)
        requires
            a.tasks == b.tasks,
            a.projects == b.projects,
            a.active_slots == b.active_slots,
            a.show_unc == b.show_unc,
            a.kanban_sort == b.kanban_sort,
            a.forced_todo_task_id == b.forced_todo_task_id,
            a.doing_order == b.doing_order,
            a.view_mode == b.view_mode,
        ensures
            forall|col: Column| #[trigger] a.nav_list(col) == b.nav_list(col),
            forall|col: Column| #[trigger] a.board_list(col) == b.board_list(col),
            forall|col: Column| #[trigger] a.visible_order(col) == b.visible_order(col),
    {
        assert forall|col: Column| #[trigger] a.board_list(col) == b.board_list(col) by {
            assert(a.board_core() == b.board_core());
        }
        assert forall|col: Column| #[trigger] a.visible_order(col) == b.visible_order(col) by {
            let st = crate::board::column_status(col);
            assert((|t: TaskView| t.status == st && a.shown(t)) =~= (|t: TaskView| t.status == st && b.shown(t)));
            assert(a.shown_ids(st) == b.shown_ids(st));
        }
        assert forall|col: Column| #[trigger] a.nav_list(col) == b.nav_list(col) by {
            assert(a.visible_order(col) == b.visible_order(col));
            assert(a.board_list(col) == b.board_list(col));
        }
    }

    /// The tasks a column lists in the current view.
    pub fn nav_tasks_for(&self, col: Column) -> (r: Vec<&Task>)
        ensures
            deref_all(r@) == self.nav_list(col),
    {
        match self.view_mode {
            ViewMode::Board => self.board_refs(col),
            ViewMode::Tree => {
                let r = self.visible_tasks_for(col);
                proof {
                    assert(deref_all(r@) =~= tasks_of(views(self.tasks@), self.visible_order(col)));
                }
                r
            },
        }
    }

    /// Pulls the cursor of `col` back onto its list.
    pub fn clamp_cursor(&mut self, col: Column)
        ensures
            (*final(self) == (App {
                cursor: final(self).cursor,
                ..*old(self)
            })),
            final(self).cursor@ == old(self).cursor@.update(
                column_index(col),
                App::clamped(old(self).cursor@[column_index(col)], old(self).nav_list(col).len()),
            ),
    {
        let len = self.nav_tasks_for(col).len();
        let i = Self::col_index(col);
        if len == 0 {
            self.cursor[i] = 0;
        } else if self.cursor[i] >= len {
            self.cursor[i] = len - 1;
        }
        proof {
            assert(self.cursor@ =~= old(self).cursor@.update(
                column_index(col),
                App::clamped(old(self).cursor@[column_index(col)], old(self).nav_list(col).len()),
            ));
        }
    }

    /// Pulls every cursor back onto its list.
    pub fn clamp_all_cursors(&mut self)
        ensures
            (*final(self) == (App {
                cursor: final(self).cursor,
                ..*old(self)
            })),
            final(self).cursor@ == seq![
                App::clamped(old(self).cursor@[0], old(self).nav_list(Column::Todo).len()),
                App::clamped(old(self).cursor@[1], old(self).nav_list(Column::Doing).len()),
                App::clamped(old(self).cursor@[2], old(self).nav_list(Column::Done).len()),
            ],
    {
        self.clamp_cursor(Column::Todo);
        proof {
            App::lemma_view_frame(&*self, &*old(self));
        }
        self.clamp_cursor(Column::Doing);
        proof {
            App::lemma_view_frame(&*self, &*old(self));
        }
        self.clamp_cursor(Column::Done);
        proof {
            assert(self.cursor@ =~= seq![
                App::clamped(old(self).cursor@[0], old(self).nav_list(Column::Todo).len()),
                App::clamped(old(self).cursor@[1], old(self).nav_list(Column::Doing).len()),
                App::clamped(old(self).cursor@[2], old(self).nav_list(Column::Done).len()),
            ]);
        }
    }

    /// Identifier of the task under the cursor of `col`.
    pub fn selected_task_id(&self, col: Column) -> (r: Option<u128>)
        ensures
            r == self.selected(col),
    {
        let tasks = self.nav_tasks_for(col);
        let cur = self.cursor_for(col);
        if cur < tasks.len() {
            proof {
                assert((*tasks@[cur as int])@ == deref_all(tasks@)[cur as int]);
            }
            Some(tasks[cur].id)
        } else {
            None
        }
    }

    /// What `move_cursor_up` makes of `old`: the state `new`.
    pub open spec fn move_cursor_up_done(old: App, new: App) -> bool {
        &&& ((new == (App {
            cursor: new.cursor,
            ..old
        })))
        &&& (({
            let i = column_index(old.focused_col);
            new.cursor@ == old.cursor@.update(
                i,
                if old.cursor@[i] > 0 {
                    (old.cursor@[i] - 1) as usize
                } else {
                    0usize
                },
            )
        }))
    }

    pub fn move_cursor_up(&mut self)
        ensures
            App::move_cursor_up_done(*old(self), *final(self)),
    {
        let i = Self::col_index(self.focused_col);
        if self.cursor[i] > 0 {
            self.cursor[i] = self.cursor[i] - 1;
        }
        proof {
            let i = column_index(old(self).focused_col);
            assert(self.cursor@ =~= old(self).cursor@.update(
                i,
                if old(self).cursor@[i] > 0 {
                    (old(self).cursor@[i] - 1) as usize
                } else {
                    0usize
                },
            ));
        }
    }

    /// What `move_cursor_down` makes of `old`: the state `new`.
    pub open spec fn move_cursor_down_done(old: App, new: App) -> bool {
        &&& ((new == (App {
            cursor: new.cursor,
            ..old
        })))
        &&& (({
            let i = column_index(old.focused_col);
            let len = old.nav_list(old.focused_col).len();
            new.cursor@ == old.cursor@.update(
                i,
                if old.cursor@[i] + 1 < len {
                    (old.cursor@[i] + 1) as usize
                } else {
                    old.cursor@[i]
                },
            )
        }))
    }

    pub fn move_cursor_down(&mut self)
        ensures
            App::move_cursor_down_done(*old(self), *final(self)),
    {
        let col = self.focused_col;
        let len = self.nav_tasks_for(col).len();
        let i = Self::col_index(col);
        if self.cursor[i] < len && self.cursor[i] + 1 < len {
            self.cursor[i] = self.cursor[i] + 1;
        }
        proof {
            let i = column_index(old(self).focused_col);
            let len = old(self).nav_list(old(self).focused_col).len();
            assert(self.cursor@ =~= old(self).cursor@.update(
                i,
                if old(self).cursor@[i] + 1 < len {
                    (old(self).cursor@[i] + 1) as usize
                } else {
                    old(self).cursor@[i]
                },
            ));
        }
    }

    /// What `focus_next_col` makes of `old`: the state `new`.
    pub open spec fn focus_next_col_done(old: App, new: App) -> bool {
        &&& ((new == (App { focused_col: column_next(old.focused_col), ..old })))
    }

    pub fn focus_next_col(&mut self)
        ensures
            App::focus_next_col_done(*old(self), *final(self)),
    {
        self.focused_col = self.focused_col.next();
    }

    /// What `focus_prev_col` makes of `old`: the state `new`.
    pub open spec fn focus_prev_col_done(old: App, new: App) -> bool {
        &&& ((new == (App { focused_col: column_prev(old.focused_col), ..old })))
    }

    pub fn focus_prev_col(&mut self)
        ensures
            App::focus_prev_col_done(*old(self), *final(self)),
    {
        self.focused_col = self.focused_col.prev();
    }
}

} // verus!
