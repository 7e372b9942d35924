//! The project filter, switching between the tree and the board, folds and
//! the visual selection.

use vstd::prelude::*;

use crate::board::{App, Column, KanbanSort, Mode, ViewMode, column_of_status, status_column};
use crate::task::{Status, TaskView, views};

verus! {

/// Ten slot switches, only `on` switched on.
pub open spec fn only_slot(on: Option<int>) -> Seq<bool> {
    Seq::new(10, |i: int| on == Some(i))
}

impl App {
    /// The cursors after a jump to column `col`: all at the top, then the
    /// cursor of `col` on task `on` when the column shows it, each pulled back
    /// onto its list.
    pub open spec fn refocused(app: App, col: Column, on: Option<u128>) -> Seq<usize> {
        let top = seq![0usize, 0usize, 0usize];
        app.clamp_all_of(
            match on {
                Some(id) => App::followed_from(app, top, col, id),
                None => top,
            },
        )
    }

    /// Focuses column `col` with every cursor at the top, scroll reset, the
    /// cursor of `col` on task `on` when shown, and the cursors clamped.
    pub(crate) fn refocus(&mut self, col: Column, on: Option<u128>)
        ensures
            final(self).cursor@ == App::refocused(*old(self), col, on),
            (*final(self) == (App {
                cursor: final(self).cursor,
                focused_col: col,
                tui_scroll_offset: 0,
                ..*old(self)
            })),
    {
        self.cursor = [0, 0, 0];
        self.focused_col = col;
        self.tui_scroll_offset = 0;
        let ghost top = *self;
        proof {
            assert(top.cursor@ =~= seq![0usize, 0usize, 0usize]);
            App::lemma_view_frame(&top, &*old(self));
        }
        match on {
            Some(id) => self.follow_task(col, id),
            None => {},
        }
        let ghost mid = *self;
        proof {
            App::lemma_view_frame(&mid, &*old(self));
        }
        self.clamp_all_cursors();
        proof {
            App::lemma_view_frame(&*self, &*old(self));
        }
    }

    /// Pulls every cursor back onto its list.
    pub open spec fn clamped_all(app: App) -> Seq<usize> {
        app.clamp_all_of(app.cursor@)
    }

    /// What `enter_planning_for_selected` makes of `old`: the state `new`.
    pub open spec fn enter_planning_for_selected_done(old: App, new: App) -> bool {
        &&& (match old.selected(old.focused_col) {
            Some(id) => match old.find(id) {
                Some(t) => {
                    let slot = old.slot_of(t.project);
                    let col = status_column(t.status);
                    &&& new.saved_slots == old.active_slots
                    &&& new.saved_show_unc == old.show_unc
                    &&& new.active_slots@ == only_slot(slot)
                    &&& new.show_unc == (slot is None)
                    &&& new.view_mode == ViewMode::Tree
                    &&& new.cursor@ == App::refocused(new, col, Some(id))
                    &&& (new == (App {
                        saved_slots: new.saved_slots,
                        saved_show_unc: new.saved_show_unc,
                        active_slots: new.active_slots,
                        show_unc: new.show_unc,
                        view_mode: ViewMode::Tree,
                        cursor: new.cursor,
                        focused_col: col,
                        tui_scroll_offset: 0,
                        ..old
                    }))
                },
                None => new == old,
            },
            None => new == old,
        })
    }

    /// Opens the tree view on the project of the cursor's task, with the tree
    /// cursor on that task; the board's filter is saved.
    pub fn enter_planning_for_selected(&mut self)
        ensures
            App::enter_planning_for_selected_done(*old(self), *final(self)),
    {
        let task_id = match self.selected_task_id(self.focused_col) {
            Some(id) => id,
            None => {
                return;
            },
        };
        let (project, task_status) = match self.task_ref(task_id) {
            Some(t) => (t.project.clone(), t.status),
            None => {
                return;
            },
        };
        self.saved_slots = self.active_slots;
        self.saved_show_unc = self.show_unc;
        self.active_slots = [false; 10];
        match self.slot_for_project(project.as_str()) {
            Some(slot) => {
                self.active_slots[slot] = true;
                self.show_unc = false;
            },
            None => {
                self.show_unc = true;
            },
        }
        proof {
            assert(self.active_slots@ =~= only_slot(old(self).slot_of(project@)));
        }
        self.view_mode = ViewMode::Tree;
        let col = column_of_status(task_status);
        let ghost before = *self;
        self.refocus(col, Some(task_id));
        proof {
            App::lemma_view_frame(&before, &*self);
        }
    }

    /// What `exit_planning` makes of `old`: the state `new`.
    pub open spec fn exit_planning_done(old: App, new: App) -> bool {
        &&& (new.cursor@ == App::clamped_all(App { cursor: old.cursor, ..new }))
        &&& ((new == (App {
            last_tree_slots: old.active_slots,
            last_tree_show_unc: old.show_unc,
            active_slots: old.saved_slots,
            show_unc: old.saved_show_unc,
            view_mode: ViewMode::Board,
            cursor: new.cursor,
            ..old
        })))
    }

    /// Leaves the tree view for the board, restoring the board's filter and
    /// saving the tree's.
    pub fn exit_planning(&mut self)
        ensures
            App::exit_planning_done(*old(self), *final(self)),
    {
        self.last_tree_slots = self.active_slots;
        self.last_tree_show_unc = self.show_unc;
        self.active_slots = self.saved_slots;
        self.show_unc = self.saved_show_unc;
        self.view_mode = ViewMode::Board;
        let ghost mid = *self;
        self.clamp_all_cursors();
        proof {
            App::lemma_view_frame(&mid, &*self);
        }
    }

    /// What `select_project_slot` makes of `old`: the state `new`.
    pub open spec fn select_project_slot_done(old: App, new: App, slot: usize) -> bool {
        &&& (old.projects@[slot as int] is None ==> new == old)
        &&& (old.projects@[slot as int] is Some ==> {
            &&& new.active_slots@ == only_slot(Some(slot as int))
            &&& !new.show_unc
            &&& new.cursor@ == App::refocused(new, Column::Todo, None)
            &&& (new == (App {
                active_slots: new.active_slots,
                show_unc: false,
                cursor: new.cursor,
                focused_col: Column::Todo,
                tui_scroll_offset: 0,
                ..old
            }))
        })
    }

    /// In the tree, shows only the project of slot `slot` (when the slot is
    /// named), with every cursor at the top of the Todo column.
    pub fn select_project_slot(&mut self, slot: usize)
        requires
            slot < 10,
        ensures
            App::select_project_slot_done(*old(self), *final(self), slot),
    {
        if self.projects[slot].is_none() {
            return;
        }
        self.active_slots = [false; 10];
        self.active_slots[slot] = true;
        self.show_unc = false;
        proof {
            assert(self.active_slots@ =~= only_slot(Some(slot as int)));
        }
        let ghost before = *self;
        self.refocus(Column::Todo, None);
        proof {
            App::lemma_view_frame(&before, &*self);
        }
    }

    /// What `select_inbox` makes of `old`: the state `new`.
    pub open spec fn select_inbox_done(old: App, new: App) -> bool {
        &&& (new.active_slots@ == only_slot(None))
        &&& (new.show_unc)
        &&& (new.cursor@ == App::refocused(new, Column::Todo, None))
        &&& ((new == (App {
            active_slots: new.active_slots,
            show_unc: true,
            cursor: new.cursor,
            focused_col: Column::Todo,
            tui_scroll_offset: 0,
            ..old
        })))
    }

    /// In the tree, shows only the uncategorised tasks (INBOX), with every
    /// cursor at the top of the Todo column.
    pub fn select_inbox(&mut self)
        ensures
            App::select_inbox_done(*old(self), *final(self)),
    {
        self.active_slots = [false; 10];
        self.show_unc = true;
        proof {
            assert(self.active_slots@ =~= only_slot(None));
        }
        let ghost before = *self;
        self.refocus(Column::Todo, None);
        proof {
            App::lemma_view_frame(&before, &*self);
        }
    }

    /// What `enable_all` makes of `old`: the state `new`.
    pub open spec fn enable_all_done(old: App, new: App) -> bool {
        &&& (forall|i: int| 0 <= i < 10 ==> #[trigger] new.active_slots@[i])
        &&& (new.show_unc)
        &&& (new.cursor@ == App::clamped_all(App { cursor: old.cursor, ..new }))
        &&& ((new == (App {
            active_slots: new.active_slots,
            show_unc: true,
            cursor: new.cursor,
            ..old
        })))
    }

    /// Switches every slot and INBOX on.
    pub fn enable_all(&mut self)
        ensures
            App::enable_all_done(*old(self), *final(self)),
    {
        self.active_slots = [true; 10];
        self.show_unc = true;
        let ghost mid = *self;
        self.clamp_all_cursors();
        proof {
            App::lemma_view_frame(&mid, &*self);
        }
    }

    /// What `disable_all` makes of `old`: the state `new`.
    pub open spec fn disable_all_done(old: App, new: App) -> bool {
        &&& (forall|i: int| 0 <= i < 10 ==> !#[trigger] new.active_slots@[i])
        &&& (!new.show_unc)
        &&& (new.cursor@ == App::clamped_all(App { cursor: old.cursor, ..new }))
        &&& ((new == (App {
            active_slots: new.active_slots,
            show_unc: false,
            cursor: new.cursor,
            ..old
        })))
    }

    /// Switches every slot and INBOX off.
    pub fn disable_all(&mut self)
        ensures
            App::disable_all_done(*old(self), *final(self)),
    {
        self.active_slots = [false; 10];
        self.show_unc = false;
        let ghost mid = *self;
        self.clamp_all_cursors();
        proof {
            App::lemma_view_frame(&mid, &*self);
        }
    }

    /// What `cycle_sort` makes of `old`: the state `new`.
    pub open spec fn cycle_sort_done(old: App, new: App) -> bool {
        &&& (new.kanban_sort == (match old.kanban_sort {
            KanbanSort::Age => KanbanSort::Project,
            KanbanSort::Project => KanbanSort::Age,
        }))
        &&& (new.cursor@ == App::clamped_all(App { cursor: old.cursor, ..new }))
        &&& ((new == (App {
            kanban_sort: new.kanban_sort,
            cursor: new.cursor,
            ..old
        })))
    }

    /// Switches the board's sort between project age and slot order.
    pub fn cycle_sort(&mut self)
        ensures
            App::cycle_sort_done(*old(self), *final(self)),
    {
        self.kanban_sort = match self.kanban_sort {
            KanbanSort::Age => KanbanSort::Project,
            KanbanSort::Project => KanbanSort::Age,
        };
        let ghost mid = *self;
        self.clamp_all_cursors();
        proof {
            App::lemma_view_frame(&mid, &*self);
        }
    }

    /// What `enter_visual` makes of `old`: the state `new`.
    pub open spec fn enter_visual_done(old: App, new: App) -> bool {
        &&& ((new == (App {
            visual_anchor_id: old.selected(old.focused_col),
            mode: Mode::Visual,
            ..old
        })))
    }

    /// Starts a visual selection anchored at the cursor's task.
    pub fn enter_visual(&mut self)
        ensures
            App::enter_visual_done(*old(self), *final(self)),
    {
        self.visual_anchor_id = self.selected_task_id(self.focused_col);
        self.mode = Mode::Visual;
    }

    /// What `exit_visual` makes of `old`: the state `new`.
    pub open spec fn exit_visual_done(old: App, new: App) -> bool {
        &&& ((new == (App { visual_anchor_id: None, mode: Mode::Normal, ..old })))
    }

    /// Ends the visual selection.
    pub fn exit_visual(&mut self)
        ensures
            App::exit_visual_done(*old(self), *final(self)),
    {
        self.visual_anchor_id = None;
        self.mode = Mode::Normal;
    }

    /// What `fold_selected` makes of `old`: the state `new`.
    pub open spec fn fold_selected_done(old: App, new: App) -> bool {
        &&& (new.collapsed@ == match old.selected(old.focused_col) {
            Some(id) => old.collapsed@.insert(id),
            None => old.collapsed@,
        })
        &&& ((new == (App { collapsed: new.collapsed, ..old })))
    }

    /// Folds the cursor's task in the tree.
    pub fn fold_selected(&mut self)
        ensures
            App::fold_selected_done(*old(self), *final(self)),
    {
        if let Some(id) = self.selected_task_id(self.focused_col) {
            self.collapsed.insert(id);
        }
    }

    /// `new` is `old` with the cursor's task folded when it was unfolded, and
    /// unfolded when it was folded.
    pub open spec fn fold_toggled(old: App, new: App) -> bool {
        &&& new.collapsed@ == match old.selected(old.focused_col) {
            Some(id) => if old.collapsed@.contains(id) {
                old.collapsed@.remove(id)
            } else {
                old.collapsed@.insert(id)
            },
            None => old.collapsed@,
        }
        &&& new == (App { collapsed: new.collapsed, ..old })
    }

    /// Folds the cursor's task in the tree, or unfolds it when folded.
    pub fn toggle_fold_selected(&mut self)
        ensures
            App::fold_toggled(*old(self), *final(self)),
    {
        if let Some(id) = self.selected_task_id(self.focused_col) {
            if self.collapsed.contains(&id) {
                self.collapsed.remove(&id);
            } else {
                self.collapsed.insert(id);
            }
        }
    }
}

/// `x` modulo `n`, in `0..n`, as `i64::rem_euclid` computes it.
pub(crate) fn wrap_index(x: i64, n: usize) -> (r: usize)
    requires
        0 < n <= i64::MAX,
    ensures
        r as int == x as int % n as int,
        r < n,
{
    let nn = n as u64;
    if x >= 0 {
        let r = (x as u64) % nn;
        r as usize
    } else {
        let m: u64 = if x == i64::MIN {
            0x8000_0000_0000_0000u64
        } else {
            (-x) as u64
        };
        let y = m % nn;
        proof {
            let q = (m as int) / (n as int);
            vstd::arithmetic::div_mod::lemma_fundamental_div_mod(m as int, n as int);
            assert(m as int == -(x as int));
            if y == 0 {
                assert(x as int == (-q) * (n as int) + 0) by (nonlinear_arith)
                    requires
                        m as int == (n as int) * q + 0,
                        m as int == -(x as int),
                ;
                vstd::arithmetic::div_mod::lemma_fundamental_div_mod_converse_mod(x as int, n as int, -q, 0);
            } else {
                assert(x as int == (-q - 1) * (n as int) + (n - y)) by (nonlinear_arith)
                    requires
                        m as int == (n as int) * q + y,
                        m as int == -(x as int),
                ;
                vstd::arithmetic::div_mod::lemma_fundamental_div_mod_converse_mod(
                    x as int,
                    n as int,
                    -q - 1,
                    n - y,
                );
            }
        }
        if y == 0 {
            0
        } else {
            (nn - y) as usize
        }
    }
}

} // verus!
