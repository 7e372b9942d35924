//! The kanban board and tree state: filters, cursors, selection and queries.

use std::collections::HashSet;

use vstd::prelude::*;

use crate::outside::Instant;
use crate::snapshots::SnapPopupState;
use crate::task::{Status, Task, TaskView, views};
use crate::tree::{
    all_present, contains_id, find_index, first_index, forest_ids, forest_order, has_id,
    lemma_first_index, lemma_forest_present, lookup, tasks_by_ids,
};

verus! {

/// Which pane the task list is drawn in.
#[derive(Debug, Clone, Copy, PartialEq, Eq, Structural)]
pub enum Column {
    Todo,
    Doing,
    Done,
}

pub open spec fn column_status(c: Column) -> Status {
    match c {
        Column::Todo => Status::Todo,
        Column::Doing => Status::Doing,
        Column::Done => Status::Done,
    }
}

pub open spec fn status_column(s: Status) -> Column {
    match s {
        Status::Todo => Column::Todo,
        Status::Doing => Column::Doing,
        Status::Done => Column::Done,
    }
}

pub open spec fn column_next(c: Column) -> Column {
    match c {
        Column::Todo => Column::Doing,
        Column::Doing => Column::Done,
        Column::Done => Column::Done,
    }
}

pub open spec fn column_prev(c: Column) -> Column {
    match c {
        Column::Todo => Column::Todo,
        Column::Doing => Column::Todo,
        Column::Done => Column::Doing,
    }
}

pub open spec fn column_index(c: Column) -> int {
    match c {
        Column::Todo => 0,
        Column::Doing => 1,
        Column::Done => 2,
    }
}

impl Column {
    pub fn status(&self) -> (s: Status)
        ensures
            s == column_status(*self),
    {
        match self {
            Column::Todo => Status::Todo,
            Column::Doing => Status::Doing,
            Column::Done => Status::Done,
        }
    }

    /// The column to the right; `Done` stays `Done`.
    pub fn next(self) -> (c: Column)
        ensures
            c == column_next(self),
    {
        match self {
            Column::Todo => Column::Doing,
            Column::Doing => Column::Done,
            Column::Done => Column::Done,
        }
    }

    /// The column to the left; `Todo` stays `Todo`.
    pub fn prev(self) -> (c: Column)
        ensures
            c == column_prev(self),
    {
        match self {
            Column::Todo => Column::Todo,
            Column::Doing => Column::Todo,
            Column::Done => Column::Doing,
        }
    }
}

/// The column whose tasks have status `s`.
pub fn column_of_status(s: Status) -> (c: Column)
    ensures
        c == status_column(s),
        column_status(c) == s,
{
    match s {
        Status::Todo => Column::Todo,
        Status::Doing => Column::Doing,
        Status::Done => Column::Done,
    }
}

/// Moving right then left, or left then right, from an inner column returns to it;
/// the end columns absorb a move past them.
pub proof fn lemma_column_moves(c: Column)
    ensures
        c != Column::Done ==> column_prev(column_next(c)) == c,
        c != Column::Todo ==> column_next(column_prev(c)) == c,
        column_next(Column::Done) == Column::Done,
        column_prev(Column::Todo) == Column::Todo,
        status_column(column_status(c)) == c,
{
}

#[derive(Debug, Clone, PartialEq, Eq, Structural)]
pub enum Mode {
    Normal,
    Insert,
    Move,
    ProjectEdit,
    Help,
    BulkInsert,
    Visual,
    SnapBrowser,
    /// Typing a search query.
    Search,
}

#[derive(Debug, Clone, PartialEq, Eq, Structural)]
pub enum BulkInsertStep {
    Num,
    Prefix,
}

pub struct BulkInsertState {
    pub step: BulkInsertStep,
    pub num_input: String,
    pub num: usize,
    pub prefix_input: String,
}

#[derive(Debug, Clone, Copy, PartialEq, Eq, Structural)]
pub enum ViewMode {
    Tree,
    Board,
}

#[derive(Debug, Clone, Copy, PartialEq, Eq, Structural)]
pub enum KanbanSort {
    /// Projects ordered by age of their oldest visible leaf task; within each project, tree order.
    Age,
    /// Projects ordered by slot priority (1-9 then 0); within each project, tree order.
    Project,
}

#[derive(Debug, Clone, Copy, PartialEq, Eq, Structural)]
pub enum InsertPosition {
    AtBeginning,
    AfterSibling(u128),
    AfterParent(u128),
}

pub struct InsertState {
    pub title: String,
    pub project: String,
    pub parent_id: Option<u128>,
    pub status: Status,
    pub position: InsertPosition,
}

/// A search over the task titles of the tree.
pub struct SearchState {
    pub query: String,
    /// Tasks whose title holds the query, in tree order with every fold open.
    pub matches: Vec<u128>,
    /// The match the cursor was last put on.
    pub match_idx: usize,
    /// The folds when the search began, restored on every jump so that only
    /// the current match's ancestors stay open.
    pub original_collapsed: HashSet<u128>,
}

pub struct EditState {
    pub task_id: u128,
    pub title: String,
    pub cursor_pos: usize,
}

pub struct MoveState {
    pub task_id: u128,
}

pub struct ProjectEditState {
    pub slot: usize,
    pub input: String,
}

/// The whole state of the task board.
pub struct App {
    pub tasks: Vec<Task>,
    /// 10 named project slots. Index 0 = key '1', ..., index 8 = key '9', index 9 = key '0'.
    pub projects: [Option<String>; 10],
    pub active_slots: [bool; 10],
    pub show_unc: bool,
    pub kanban_sort: KanbanSort,
    /// Saved kanban filter state, restored when exiting planning mode.
    pub saved_slots: [bool; 10],
    pub saved_show_unc: bool,
    /// Last tree filter state, restored when entering tree from kanban.
    pub last_tree_slots: [bool; 10],
    pub last_tree_show_unc: bool,
    /// A non-first-leaf task forced into the Todo column for one kanban session.
    pub forced_todo_task_id: Option<u128>,
    pub mode: Mode,
    pub view_mode: ViewMode,
    pub focused_col: Column,
    pub cursor: [usize; 3],
    pub tui_scroll_offset: usize,
    pub insert: Option<InsertState>,
    pub edit: Option<EditState>,
    pub move_state: Option<MoveState>,
    pub project_edit: Option<ProjectEditState>,
    pub bulk_insert: Option<BulkInsertState>,
    pub status_message: Option<String>,
    pub last_d_press: Option<Instant>,
    pub last_g_press: Option<Instant>,
    /// When `z` was last pressed, for the fold chords (`zg`, `zl`, `z.`, `z,`).
    pub last_z_press: Option<Instant>,
    pub collapsed: HashSet<u128>,
    pub undo_stack: Vec<Vec<Task>>,
    pub redo_stack: Vec<Vec<Task>>,
    /// Explicit ordering for the Doing column; empty means tree order.
    pub doing_order: Vec<u128>,
    /// Anchor task of the visual (multi-select) mode.
    pub visual_anchor_id: Option<u128>,
    /// True while waiting for y/n before discarding unsaved insert/edit input.
    pub discard_confirm: bool,
    /// Which of the three flag pills are toggled on.
    pub flag_active: [bool; 3],
    /// The flag index that 'f' applies: the most recently activated flag.
    pub active_highlight: Option<usize>,
    /// True while waiting for confirmation before clearing all highlights of a flag.
    pub flag_clear_confirm: bool,
    /// True while waiting for confirmation before archiving all Done tasks.
    pub archive_done_confirm: bool,
    /// State of the in-TUI snapshot browser popup.
    pub snap_popup: Option<SnapPopupState>,
    /// The search, while one is active.
    pub search: Option<SearchState>,
}

/// First slot at or after `i` named `name`.
pub open spec fn slot_from(projects: Seq<Option<String>>, name: Seq<char>, i: int) -> Option<int>
    decreases projects.len() - i,
    when 0 <= i
{
    if i >= projects.len() {
        None
    } else if projects[i] is Some && projects[i]->0@ == name {
        Some(i)
    } else {
        slot_from(projects, name, i + 1)
    }
}

/// Slot holding the project `name`; the empty name has no slot.
pub open spec fn project_slot(projects: Seq<Option<String>>, name: Seq<char>) -> Option<int> {
    if name.len() == 0 {
        None
    } else {
        slot_from(projects, name, 0)
    }
}

pub proof fn lemma_slot_from(projects: Seq<Option<String>>, name: Seq<char>, i: int)
    requires
        0 <= i,
    ensures
        slot_from(projects, name, i) matches Some(s) ==> i <= s < projects.len() && projects[s]
            is Some && projects[s]->0@ == name,
    decreases projects.len() - i,
{
    if i < projects.len() && !(projects[i] is Some && projects[i]->0@ == name) {
        lemma_slot_from(projects, name, i + 1);
    }
}

/// Whether two texts are equal.
pub fn same_text(a: &str, b: &str) -> (r: bool)
    ensures
        r == (a@ == b@),
{
    let x = a.to_owned();
    let y = b.to_owned();
    x == y
}

/// Identifiers, in list order, of the tasks among the first `k` that satisfy `p`.
pub open spec fn ids_where(ts: Seq<TaskView>, p: spec_fn(TaskView) -> bool, k: int) -> Seq<u128>
    decreases k,
{
    if k <= 0 {
        Seq::empty()
    } else if p(ts[k - 1]) {
        ids_where(ts, p, k - 1).push(ts[k - 1].id)
    } else {
        ids_where(ts, p, k - 1)
    }
}

/// The tasks listed by identifier, each the first task with that identifier.
pub open spec fn tasks_of(ts: Seq<TaskView>, ids: Seq<u128>) -> Seq<TaskView> {
    ids.map_values(|id: u128| lookup(ts, id)->0)
}

impl App {
    /// The slot named `name`; the empty name has no slot.
    pub open spec fn slot_of(&self, name: Seq<char>) -> Option<int> {
        project_slot(self.projects@, name)
    }

    /// A task is uncategorised when its project is empty or names no slot.
    pub open spec fn unc(&self, t: TaskView) -> bool {
        t.project.len() == 0 || self.slot_of(t.project) is None
    }

    /// Whether the project filter shows `t`.
    pub open spec fn shown(&self, t: TaskView) -> bool {
        if self.unc(t) {
            self.show_unc
        } else {
            self.active_slots@[self.slot_of(t.project)->0]
        }
    }

    /// Identifiers of the shown tasks with status `s`, in list order.
    pub open spec fn shown_ids(&self, s: Status) -> Seq<u128> {
        ids_where(views(self.tasks@), |t: TaskView| t.status == s && self.shown(t), views(self.tasks@).len() as int)
    }

    /// Identifiers of the tasks with status `s`, in list order.
    pub open spec fn status_ids(&self, s: Status) -> Seq<u128> {
        ids_where(views(self.tasks@), |t: TaskView| t.status == s, views(self.tasks@).len() as int)
    }

    /// Tree order of the shown tasks of a column.
    pub open spec fn visible_order(&self, col: Column) -> Seq<u128> {
        forest_order(views(self.tasks@), self.shown_ids(column_status(col)))
    }

    /// Tree order of all tasks of a column, ignoring the project filter.
    pub open spec fn column_order(&self, col: Column) -> Seq<u128> {
        forest_order(views(self.tasks@), self.status_ids(column_status(col)))
    }

    /// The first task with identifier `id`.
    pub open spec fn find(&self, id: u128) -> Option<TaskView> {
        lookup(views(self.tasks@), id)
    }

    /// A fresh board over `tasks`: every filter on, tree view of the first named
    /// project (INBOX when no project is named).
    pub fn new(tasks: Vec<Task>, projects: [Option<String>; 10]) -> (app: App)
        ensures
            app.tasks == tasks,
            app.projects == projects,
            forall|i: int| 0 <= i < 10 ==> #[trigger] app.active_slots@[i],
            app.show_unc,
            app.kanban_sort == KanbanSort::Age,
            forall|i: int| 0 <= i < 10 ==> #[trigger] app.saved_slots@[i],
            app.saved_show_unc,
            (exists|s: int| 0 <= s < 10 && projects@[s] is Some) ==> ({
                let s = choose|s: int|
                    0 <= s < 10 && projects@[s] is Some && forall|j: int|
                        0 <= j < s ==> projects@[j] is None;
                &&& forall|i: int| 0 <= i < 10 ==> #[trigger] app.last_tree_slots@[i] == (i == s)
                &&& !app.last_tree_show_unc
            }),
            (forall|s: int| 0 <= s < 10 ==> projects@[s] is None) ==> ((forall|i: int|
                0 <= i < 10 ==> !#[trigger] app.last_tree_slots@[i]) && app.last_tree_show_unc),
            app.forced_todo_task_id is None,
            app.mode == Mode::Normal,
            app.view_mode == ViewMode::Tree,
            app.focused_col == Column::Todo,
            app.cursor@ == seq![0usize, 0usize, 0usize],
            app.tui_scroll_offset == 0,
            app.insert is None,
            app.edit is None,
            app.move_state is None,
            app.project_edit is None,
            app.bulk_insert is None,
            app.status_message is None,
            app.last_d_press is None,
            app.last_g_press is None,
            app.last_z_press is None,
            app.collapsed@.is_empty(),
            app.undo_stack@.len() == 0,
            app.redo_stack@.len() == 0,
            app.doing_order@.len() == 0,
            app.visual_anchor_id is None,
            !app.discard_confirm,
            forall|i: int| 0 <= i < 3 ==> !#[trigger] app.flag_active@[i],
            app.active_highlight is None,
            !app.flag_clear_confirm,
            !app.archive_done_confirm,
            app.snap_popup is None,
            app.search is None,
    {
        let mut slot: usize = 0;
        while slot < 10 && projects[slot].is_none()
            invariant
                slot <= 10,
                forall|j: int| 0 <= j < slot ==> projects@[j] is None,
            decreases 10 - slot,
        {
            slot = slot + 1;
        }
        let mut last_tree_slots = [false; 10];
        let mut last_tree_show_unc = true;
        if slot < 10 {
            last_tree_slots[slot] = true;
            last_tree_show_unc = false;
            proof {
                let s = choose|s: int|
                    0 <= s < 10 && projects@[s] is Some && forall|j: int|
                        0 <= j < s ==> projects@[j] is None;
                assert(0 <= s < 10 && projects@[s] is Some && forall|j: int|
                    0 <= j < s ==> projects@[j] is None);
                if s < slot {
                    assert(projects@[s] is None);
                }
                if s > slot {
                    assert(projects@[slot as int] is None);
                }
                assert(s == slot);
            }
        }
        App {
            tasks,
            projects,
            active_slots: [true; 10],
            show_unc: true,
            kanban_sort: KanbanSort::Age,
            saved_slots: [true; 10],
            saved_show_unc: true,
            last_tree_slots,
            last_tree_show_unc,
            forced_todo_task_id: None,
            mode: Mode::Normal,
            view_mode: ViewMode::Tree,
            focused_col: Column::Todo,
            cursor: [0, 0, 0],
            tui_scroll_offset: 0,
            insert: None,
            edit: None,
            move_state: None,
            project_edit: None,
            bulk_insert: None,
            status_message: None,
            last_d_press: None,
            last_g_press: None,
            last_z_press: None,
            collapsed: HashSet::new(),
            undo_stack: Vec::new(),
            redo_stack: Vec::new(),
            doing_order: Vec::new(),
            visual_anchor_id: None,
            discard_confirm: false,
            flag_active: [false; 3],
            active_highlight: None,
            flag_clear_confirm: false,
            archive_done_confirm: false,
            snap_popup: None,
            search: None,
        }
    }
}

/// Number of tasks among the first `k` that satisfy `p`.
pub open spec fn count_where(ts: Seq<TaskView>, p: spec_fn(TaskView) -> bool, k: int) -> nat
    decreases k,
{
    if k <= 0 {
        0
    } else if p(ts[k - 1]) {
        count_where(ts, p, k - 1) + 1
    } else {
        count_where(ts, p, k - 1)
    }
}

pub proof fn lemma_count_le(ts: Seq<TaskView>, p: spec_fn(TaskView) -> bool, k: int)
    requires
        0 <= k,
    ensures
        count_where(ts, p, k) <= k,
    decreases k,
{
    if k > 0 {
        lemma_count_le(ts, p, k - 1);
    }
}

/// Whether the status is one of the two open ones.
pub open spec fn is_open(s: Status) -> bool {
    s == Status::Todo || s == Status::Doing
}

impl App {
    /// A task is a leaf when it is open and none of its children (as found by
    /// identifier) is open.
    pub open spec fn leaf(&self, t: TaskView) -> bool {
        &&& is_open(t.status)
        &&& forall|i: int|
            0 <= i < t.children.len() ==> !(#[trigger] lookup(views(self.tasks@), t.children[i]) matches Some(
                c,
            ) && is_open(c.status))
    }

    pub fn col_index(col: Column) -> (i: usize)
        ensures
            i == column_index(col),
    {
        match col {
            Column::Todo => 0,
            Column::Doing => 1,
            Column::Done => 2,
        }
    }

    /// The slot named `project`; the empty name has no slot.
    pub fn slot_for_project(&self, project: &str) -> (r: Option<usize>)
        ensures
            r matches Some(s) ==> self.slot_of(project@) == Some(s as int),
            r is None ==> self.slot_of(project@) is None,
            r matches Some(s) ==> s < 10,
    {
        if project.is_empty() {
            return None;
        }
        let mut i: usize = 0;
        while i < 10
            invariant
                i <= 10,
                project@.len() > 0,
                self.slot_of(project@) == slot_from(self.projects@, project@, i as int),
            decreases 10 - i,
        {
            match &self.projects[i] {
                Some(name) => {
                    if same_text(name.as_str(), project) {
                        return Some(i);
                    }
                },
                None => {},
            }
            i = i + 1;
        }
        None
    }

    pub fn is_unc(&self, task: &Task) -> (r: bool)
        ensures
            r == self.unc(task@),
    {
        task.project.as_str().is_empty() || self.slot_for_project(task.project.as_str()).is_none()
    }

    pub fn task_visible(&self, task: &Task) -> (r: bool)
        ensures
            r == self.shown(task@),
    {
        if self.is_unc(task) {
            self.show_unc
        } else {
            match self.slot_for_project(task.project.as_str()) {
                Some(s) => self.active_slots[s],
                None => self.show_unc,
            }
        }
    }

    /// The first task with identifier `id`.
    pub fn task_ref(&self, id: u128) -> (r: Option<&Task>)
        ensures
            match r {
                Some(t) => self.find(id) == Some(t@),
                None => self.find(id) is None,
            },
    {
        match find_index(&self.tasks, id) {
            Some(i) => {
                proof {
                    lemma_first_index(views(self.tasks@), id);
                }
                Some(&self.tasks[i])
            },
            None => None,
        }
    }

    /// Mutable access to the first task with identifier `id`.
    pub fn task_mut(&mut self, id: u128) -> (r: Option<&mut Task>)
        ensures
            match r {
                Some(t) => {
                    let i = first_index(views(old(self).tasks@), id);
                    &&& 0 <= i < old(self).tasks@.len()
                    &&& *t == old(self).tasks@[i]
                    &&& final(self).tasks@ == old(self).tasks@.update(i, *final(t))
                },
                None => first_index(views(old(self).tasks@), id) == -1 && *final(self) == *old(self),
            },
            (*final(self) == (App { tasks: final(self).tasks, ..*old(self) })),
    {
        match find_index(&self.tasks, id) {
            Some(i) => {
                proof {
                    lemma_first_index(views(self.tasks@), id);
                }
                Some(&mut self.tasks[i])
            },
            None => None,
        }
    }

    /// Whether `task` is open and has no open child.
    pub fn is_leaf_task(&self, task: &Task) -> (r: bool)
        ensures
            r == self.leaf(task@),
    {
        if !(task.status == Status::Todo || task.status == Status::Doing) {
            return false;
        }
        let mut i: usize = 0;
        while i < task.children.len()
            invariant
                i <= task.children.len(),
                is_open(task.status),
                forall|j: int|
                    0 <= j < i ==> !(#[trigger] lookup(views(self.tasks@), task.children[j]) matches Some(
                        c,
                    ) && is_open(c.status)),
            decreases task.children.len() - i,
        {
            match self.task_ref(task.children[i]) {
                Some(c) => {
                    if c.status == Status::Todo || c.status == Status::Doing {
                        return false;
                    }
                },
                None => {},
            }
            i = i + 1;
        }
        true
    }

    /// Number of leaf tasks of the project named in `slot` (0 for an empty slot).
    pub fn doable_count_for_slot(&self, slot: usize) -> (n: usize)
        requires
            slot < 10,
        ensures
            n == (match self.projects@[slot as int] {
                Some(name) => count_where(
                    views(self.tasks@),
                    |t: TaskView| t.project == name@ && self.leaf(t),
                    views(self.tasks@).len() as int,
                ),
                None => 0,
            }),
    {
        let name = match &self.projects[slot] {
            Some(n) => n,
            None => return 0,
        };
        let ghost p = |t: TaskView| t.project == name@ && self.leaf(t);
        let mut n: usize = 0;
        let mut k: usize = 0;
        while k < self.tasks.len()
            invariant
                k <= views(self.tasks@).len(),
                n == count_where(views(self.tasks@), p, k as int),
                p == (|t: TaskView| t.project == name@ && self.leaf(t)),
            decreases views(self.tasks@).len() - k,
        {
            proof {
                lemma_count_le(views(self.tasks@), p, k as int);
            }
            let t = &self.tasks[k];
            if same_text(t.project.as_str(), name.as_str()) && self.is_leaf_task(t) {
                n = n + 1;
            }
            k = k + 1;
        }
        n
    }

    /// Number of uncategorised leaf tasks.
    pub fn unc_doable_count(&self) -> (n: usize)
        ensures
            n == count_where(
                views(self.tasks@),
                |t: TaskView| self.unc(t) && self.leaf(t),
                views(self.tasks@).len() as int,
            ),
    {
        let ghost p = |t: TaskView| self.unc(t) && self.leaf(t);
        let mut n: usize = 0;
        let mut k: usize = 0;
        while k < self.tasks.len()
            invariant
                k <= views(self.tasks@).len(),
                n == count_where(views(self.tasks@), p, k as int),
                p == (|t: TaskView| self.unc(t) && self.leaf(t)),
            decreases views(self.tasks@).len() - k,
        {
            proof {
                lemma_count_le(views(self.tasks@), p, k as int);
            }
            let t = &self.tasks[k];
            if self.is_unc(t) && self.is_leaf_task(t) {
                n = n + 1;
            }
            k = k + 1;
        }
        n
    }

    /// Identifiers of the tasks with status `s`, restricted to the shown ones when `only_shown`.
    fn member_ids(&self, s: Status, only_shown: bool) -> (r: Vec<u128>)
        ensures
            r@ == (if only_shown {
                self.shown_ids(s)
            } else {
                self.status_ids(s)
            }),
    {
        let ghost p = if only_shown {
            |t: TaskView| t.status == s && self.shown(t)
        } else {
            |t: TaskView| t.status == s
        };
        let mut r: Vec<u128> = Vec::new();
        let mut k: usize = 0;
        while k < self.tasks.len()
            invariant
                k <= views(self.tasks@).len(),
                r@ == ids_where(views(self.tasks@), p, k as int),
                p == (if only_shown {
                    |t: TaskView| t.status == s && self.shown(t)
                } else {
                    |t: TaskView| t.status == s
                }),
            decreases views(self.tasks@).len() - k,
        {
            let t = &self.tasks[k];
            let keep = t.status == s && (!only_shown || self.task_visible(t));
            if keep {
                r.push(t.id);
            }
            k = k + 1;
        }
        r
    }

    /// Tree order of the shown tasks of a column.
    pub fn visible_ids_for(&self, col: Column) -> (r: Vec<u128>)
        ensures
            r@ == self.visible_order(col),
    {
        let inc = self.member_ids(col.status(), true);
        forest_ids(&self.tasks, &inc)
    }

    /// Tree order of all tasks of a column, ignoring the project filter.
    pub(crate) fn column_ids(&self, col: Column) -> (r: Vec<u128>)
        ensures
            r@ == self.column_order(col),
    {
        let inc = self.member_ids(col.status(), false);
        forest_ids(&self.tasks, &inc)
    }

    /// The shown tasks of a column, each subtree right after its root.
    pub fn visible_tasks_for(&self, col: Column) -> (r: Vec<&Task>)
        ensures
            r@.len() == self.visible_order(col).len(),
            forall|i: int|
                0 <= i < r@.len() ==> (*#[trigger] r@[i])@ == lookup(
                    views(self.tasks@),
                    self.visible_order(col)[i],
                )->0,
    {
        let ids = self.visible_ids_for(col);
        proof {
            lemma_forest_present(views(self.tasks@), self.shown_ids(column_status(col)));
        }
        tasks_by_ids(&self.tasks, &ids)
    }

    pub fn cursor_for(&self, col: Column) -> (c: usize)
        ensures
            c == self.cursor@[column_index(col)],
    {
        self.cursor[Self::col_index(col)]
    }
}

} // verus!
