//! The rows of the tree view: one per shown task in depth-first order, with
//! the connectors drawn before each title; moving through them.

use vstd::prelude::*;

use crate::board::{App, Column, column_index, column_of_status, status_column};
use crate::task::{Status, Task, TaskView, views};
use crate::text::concat;
use crate::tree::{find_last_index, last_index, lemma_last_index_upto};

verus! {

/// How a row's title is drawn.
#[derive(Debug, Clone, Copy, PartialEq, Eq, Structural)]
pub enum RowKind {
    Todo,
    Doing,
    Done,
}

/// One row of the tree view.
pub struct TuiRow {
    pub id: u128,
    pub title: String,
    pub depth: usize,
    pub kind: RowKind,
    /// What is drawn before the title: the connectors, such as "│  ├─ ".
    pub display_prefix: String,
    /// What the rows of the children start with, such as "│  │  ".
    pub children_prefix: String,
    pub is_collapsed: bool,
}

/// The value of a row.
pub struct RowView {
    pub id: u128,
    pub title: Seq<char>,
    pub depth: int,
    pub kind: RowKind,
    pub display_prefix: Seq<char>,
    pub children_prefix: Seq<char>,
    pub is_collapsed: bool,
}

impl View for TuiRow {
    type V = RowView;

    open spec fn view(&self) -> RowView {
        RowView {
            id: self.id,
            title: self.title@,
            depth: self.depth as int,
            kind: self.kind,
            display_prefix: self.display_prefix@,
            children_prefix: self.children_prefix@,
            is_collapsed: self.is_collapsed,
        }
    }
}

/// The values of a list of rows.
pub open spec fn row_views(s: Seq<TuiRow>) -> Seq<RowView> {
    s.map_values(|r: TuiRow| r@)
}

/// The kind of row a task of status `s` gets.
pub open spec fn kind_of(s: Status) -> RowKind {
    match s {
        Status::Todo => RowKind::Todo,
        Status::Doing => RowKind::Doing,
        Status::Done => RowKind::Done,
    }
}

/// The children among `kids[..k]` that `vis` lists, in order.
pub open spec fn shown_kids(kids: Seq<u128>, vis: Seq<u128>, k: int) -> Seq<u128>
    decreases k,
{
    if k <= 0 {
        Seq::empty()
    } else if vis.contains(kids[k - 1]) {
        shown_kids(kids, vis, k - 1).push(kids[k - 1])
    } else {
        shown_kids(kids, vis, k - 1)
    }
}

/// Whether some shown task below `id` is Doing; a task's children are read
/// from the last entry with its identifier. `fuel` bounds the depth.
pub open spec fn doing_below(ts: Seq<TaskView>, vis: Seq<u128>, id: u128, fuel: nat) -> bool
    decreases fuel, 0int, 0int,
{
    if fuel == 0 || last_index(ts, id) < 0 {
        false
    } else {
        let kids = ts[last_index(ts, id)].children;
        doing_among(ts, vis, kids, 0, (fuel - 1) as nat)
    }
}

/// Whether one of the shown `kids[j..]`, or a shown task below it, is Doing.
pub open spec fn doing_among(ts: Seq<TaskView>, vis: Seq<u128>, kids: Seq<u128>, j: int, fuel: nat) -> bool
    decreases fuel, 1int, kids.len() - j,
{
    if j < 0 || j >= kids.len() {
        false
    } else if !vis.contains(kids[j]) {
        doing_among(ts, vis, kids, j + 1, fuel)
    } else {
        let c = kids[j];
        (last_index(ts, c) >= 0 && ts[last_index(ts, c)].status == Status::Doing) || doing_below(
            ts,
            vis,
            c,
            fuel,
        ) || doing_among(ts, vis, kids, j + 1, fuel)
    }
}

/// The connector drawn before a row: "╰─ " for the last child, "├─ " otherwise.
pub open spec fn connector(is_last: bool) -> Seq<char> {
    if is_last {
        "\u{2570}\u{2500} "@
    } else {
        "\u{251c}\u{2500} "@
    }
}

/// What continues below a row for its children: spaces under the last
/// child, a bar otherwise.
pub open spec fn continuation(is_last: bool) -> Seq<char> {
    if is_last {
        "   "@
    } else {
        "\u{2502}  "@
    }
}

/// The rows of the subtree of `id` at `depth`, under a parent whose children
/// start with `pp`. `fuel` bounds the depth.
pub open spec fn visit_rows(
    ts: Seq<TaskView>,
    vis: Seq<u128>,
    folded: Set<u128>,
    id: u128,
    depth: int,
    pp: Seq<char>,
    is_last: bool,
    fuel: nat,
) -> Seq<RowView>
    decreases fuel, 0int, 0int,
{
    if fuel == 0 || last_index(ts, id) < 0 {
        Seq::empty()
    } else {
        let t = ts[last_index(ts, id)];
        let dp = if depth == 0 { Seq::empty() } else { pp + connector(is_last) };
        let cp = if depth == 0 { Seq::empty() } else { pp + continuation(is_last) };
        let vk = shown_kids(t.children, vis, t.children.len() as int);
        let collapsed = folded.contains(id) && vk.len() > 0;
        let kind = if collapsed && doing_below(ts, vis, id, ts.len() as nat) {
            RowKind::Doing
        } else {
            kind_of(t.status)
        };
        let row = RowView {
            id,
            title: t.title,
            depth,
            kind,
            display_prefix: dp,
            children_prefix: cp,
            is_collapsed: collapsed,
        };
        if collapsed {
            seq![row]
        } else {
            seq![row] + visit_kid_rows(ts, vis, folded, vk, 0, depth + 1, cp, (fuel - 1) as nat)
        }
    }
}

/// The rows of the subtrees of `kids[i..]`.
pub open spec fn visit_kid_rows(
    ts: Seq<TaskView>,
    vis: Seq<u128>,
    folded: Set<u128>,
    kids: Seq<u128>,
    i: int,
    depth: int,
    pp: Seq<char>,
    fuel: nat,
) -> Seq<RowView>
    decreases fuel, 1int, kids.len() - i,
{
    if i < 0 || i >= kids.len() {
        Seq::empty()
    } else {
        visit_rows(ts, vis, folded, kids[i], depth, pp, i == kids.len() - 1, fuel) + visit_kid_rows(
            ts,
            vis,
            folded,
            kids,
            i + 1,
            depth,
            pp,
            fuel,
        )
    }
}

/// The shown tasks whose parent is not shown, in list order, among the first `k`.
pub open spec fn row_roots(ts: Seq<TaskView>, vis: Seq<u128>, k: int) -> Seq<u128>
    decreases k,
{
    if k <= 0 {
        Seq::empty()
    } else if vis.contains(ts[k - 1].id) && (ts[k - 1].parent_id is None || !vis.contains(
        ts[k - 1].parent_id->0,
    )) {
        row_roots(ts, vis, k - 1).push(ts[k - 1].id)
    } else {
        row_roots(ts, vis, k - 1)
    }
}

/// The rows of the trees of `roots[i..]`.
pub open spec fn root_rows(ts: Seq<TaskView>, vis: Seq<u128>, folded: Set<u128>, roots: Seq<u128>, i: int) -> Seq<
    RowView,
>
    decreases roots.len() - i,
    when 0 <= i
{
    if i >= roots.len() {
        Seq::empty()
    } else {
        visit_rows(ts, vis, folded, roots[i], 0, Seq::empty(), i == roots.len() - 1, ts.len() as nat)
            + root_rows(ts, vis, folded, roots, i + 1)
    }
}

impl App {
    /// The rows of the tree view: the shown tasks whose parent is not shown,
    /// each followed by its shown subtree (folded tasks hide theirs).
    pub open spec fn rows(&self) -> Seq<RowView> {
        let ts = views(self.tasks@);
        let vis = self.shown_all_ids();
        root_rows(ts, vis, self.collapsed@, row_roots(ts, vis, ts.len() as int), 0)
    }
}

/// The shown children of `kids`, in order.
fn shown_children(kids: &Vec<u128>, vis: &Vec<u128>) -> (r: Vec<u128>)
    ensures
        r@ == shown_kids(kids@, vis@, kids@.len() as int),
{
    let mut r: Vec<u128> = Vec::new();
    let mut k: usize = 0;
    while k < kids.len()
        invariant
            k <= kids@.len(),
            r@ == shown_kids(kids@, vis@, k as int),
        decreases kids@.len() - k,
    {
        if crate::tree::contains_id(vis, kids[k]) {
            r.push(kids[k]);
        }
        k = k + 1;
    }
    r
}

/// Whether some shown task below `id` is Doing.
fn has_doing_descendant(tasks: &Vec<Task>, vis: &Vec<u128>, id: u128, fuel: usize) -> (r: bool)
    ensures
        r == doing_below(views(tasks@), vis@, id, fuel as nat),
    decreases fuel, 0int, 0int,
{
    if fuel == 0 {
        return false;
    }
    match find_last_index(tasks, id) {
        None => false,
        Some(i) => {
            proof {
                assert(views(tasks@)[i as int] == tasks@[i as int]@);
            }
            let kids = &tasks[i].children;
            let mut j: usize = 0;
            let mut found = false;
            while j < kids.len()
                invariant
                    j <= kids@.len(),
                    fuel > 0,
                    kids@ == views(tasks@)[last_index(views(tasks@), id)].children,
                    doing_among(views(tasks@), vis@, kids@, 0, (fuel - 1) as nat) == (found || doing_among(
                        views(tasks@),
                        vis@,
                        kids@,
                        j as int,
                        (fuel - 1) as nat,
                    )),
                decreases kids@.len() - j,
            {
                let c = kids[j];
                if crate::tree::contains_id(vis, c) {
                    let here = match find_last_index(tasks, c) {
                        Some(ci) => {
                            proof {
                                assert(views(tasks@)[ci as int] == tasks@[ci as int]@);
                            }
                            tasks[ci].status == Status::Doing
                        },
                        None => false,
                    };
                    if here || has_doing_descendant(tasks, vis, c, fuel - 1) {
                        found = true;
                    }
                }
                j = j + 1;
            }
            found
        },
    }
}

/// Appends the rows of the subtree of `id`.
fn visit_task(
    tasks: &Vec<Task>,
    vis: &Vec<u128>,
    folded: &std::collections::HashSet<u128>,
    id: u128,
    depth: usize,
    pp: &str,
    is_last: bool,
    rows: &mut Vec<TuiRow>,
    fuel: usize,
)
    requires
        depth + fuel <= usize::MAX,
    ensures
        row_views(final(rows)@) == row_views(old(rows)@) + visit_rows(
            views(tasks@),
            vis@,
            folded@,
            id,
            depth as int,
            pp@,
            is_last,
            fuel as nat,
        ),
    decreases fuel, 0int, 0int,
{
    let ghost ts = views(tasks@);
    if fuel == 0 {
        proof {
            assert(row_views(rows@) =~= row_views(old(rows)@) + Seq::<RowView>::empty());
        }
        return;
    }
    let i = match find_last_index(tasks, id) {
        Some(i) => i,
        None => {
            proof {
                assert(row_views(rows@) =~= row_views(old(rows)@) + Seq::<RowView>::empty());
            }
            return;
        },
    };
    let t = &tasks[i];
    proof {
        assert(ts[i as int] == t@);
    }
    let (display_prefix, children_prefix) = if depth == 0 {
        (String::new(), String::new())
    } else {
        let conn = if is_last {
            "\u{2570}\u{2500} "
        } else {
            "\u{251c}\u{2500} "
        };
        let cont = if is_last {
            "   "
        } else {
            "\u{2502}  "
        };
        (concat(pp, conn), concat(pp, cont))
    };
    let vk = shown_children(&t.children, vis);
    let collapsed = folded.contains(&id) && vk.len() > 0;
    let kind = if collapsed && has_doing_descendant(tasks, vis, id, tasks.len()) {
        RowKind::Doing
    } else {
        match t.status {
            Status::Todo => RowKind::Todo,
            Status::Doing => RowKind::Doing,
            Status::Done => RowKind::Done,
        }
    };
    let cp = children_prefix.clone();
    let ghost before = row_views(rows@);
    rows.push(
        TuiRow {
            id,
            title: t.title.clone(),
            depth,
            kind,
            display_prefix,
            children_prefix,
            is_collapsed: collapsed,
        },
    );
    let ghost row = rows@[rows@.len() - 1]@;
    proof {
        assert(row_views(rows@) =~= before.push(row));
    }
    if collapsed {
        proof {
            assert(row_views(rows@) =~= row_views(old(rows)@) + seq![row]);
        }
        return;
    }
    let n = vk.len();
    let ghost start = row_views(rows@);
    let mut k: usize = 0;
    while k < n
        invariant
            k <= n,
            n == vk@.len(),
            fuel > 0,
            depth + fuel <= usize::MAX,
            start == row_views(old(rows)@) + seq![row],
            row_views(rows@) + visit_kid_rows(ts, vis@, folded@, vk@, k as int, depth + 1, cp@, (fuel - 1) as nat)
                == start + visit_kid_rows(ts, vis@, folded@, vk@, 0, depth + 1, cp@, (fuel - 1) as nat),
            ts == views(tasks@),
        decreases n - k,
    {
        let ghost r0 = row_views(rows@);
        visit_task(tasks, vis, folded, vk[k], depth + 1, cp.as_str(), k == n - 1, rows, fuel - 1);
        proof {
            let here = visit_rows(ts, vis@, folded@, vk@[k as int], depth + 1, cp@, k == n - 1, (fuel - 1) as nat);
            let rest = visit_kid_rows(ts, vis@, folded@, vk@, k + 1, depth + 1, cp@, (fuel - 1) as nat);
            assert(visit_kid_rows(ts, vis@, folded@, vk@, k as int, depth + 1, cp@, (fuel - 1) as nat) == here + rest);
            assert(r0 + (here + rest) =~= (r0 + here) + rest);
        }
        k = k + 1;
    }
    proof {
        assert(row_views(rows@) + Seq::<RowView>::empty() =~= row_views(rows@));
        assert(row_views(old(rows)@) + (seq![row] + visit_kid_rows(
            ts,
            vis@,
            folded@,
            vk@,
            0,
            depth + 1,
            cp@,
            (fuel - 1) as nat,
        )) =~= start + visit_kid_rows(ts, vis@, folded@, vk@, 0, depth + 1, cp@, (fuel - 1) as nat));
    }
}

impl App {
    /// The rows of the tree view.
    pub fn build_tui_rows(&self) -> (r: Vec<TuiRow>)
        ensures
            row_views(r@) == self.rows(),
    {
        let ghost ts = views(self.tasks@);
        let vis = crate::edit::shown_ids_vec(self);
        let mut roots: Vec<u128> = Vec::new();
        let mut k: usize = 0;
        while k < self.tasks.len()
            invariant
                k <= ts.len(),
                ts == views(self.tasks@),
                vis@ == self.shown_all_ids(),
                roots@ == row_roots(ts, vis@, k as int),
            decreases ts.len() - k,
        {
            let t = &self.tasks[k];
            let keep = crate::tree::contains_id(&vis, t.id) && match t.parent_id {
                None => true,
                Some(p) => !crate::tree::contains_id(&vis, p),
            };
            if keep {
                roots.push(t.id);
            }
            k = k + 1;
        }
        self.rows_from(&vis, &roots)
    }

    /// The rows of the trees of `roots`, in order.
    pub(crate) fn rows_from(&self, vis: &Vec<u128>, roots: &Vec<u128>) -> (r: Vec<TuiRow>)
        ensures
            row_views(r@) == root_rows(views(self.tasks@), vis@, self.collapsed@, roots@, 0),
    {
        let ghost ts = views(self.tasks@);
        let mut rows: Vec<TuiRow> = Vec::new();
        let n = roots.len();
        let mut i: usize = 0;
        while i < n
            invariant
                i <= n,
                n == roots@.len(),
                ts == views(self.tasks@),
                row_views(rows@) + root_rows(ts, vis@, self.collapsed@, roots@, i as int) == root_rows(
                    ts,
                    vis@,
                    self.collapsed@,
                    roots@,
                    0,
                ),
            decreases n - i,
        {
            let ghost r0 = row_views(rows@);
            visit_task(&self.tasks, &vis, &self.collapsed, roots[i], 0, "", i == n - 1, &mut rows, self.tasks.len());
            proof {
                let here = visit_rows(ts, vis@, self.collapsed@, roots@[i as int], 0, ""@, i == n - 1, ts.len() as nat);
                let rest = root_rows(ts, vis@, self.collapsed@, roots@, i + 1);
                assert(root_rows(ts, vis@, self.collapsed@, roots@, i as int) == here + rest);
                assert(r0 + (here + rest) =~= (r0 + here) + rest);
            }
            i = i + 1;
        }
        proof {
            assert(row_views(rows@) + Seq::<RowView>::empty() =~= row_views(rows@));
        }
        rows
    }
}

/// Position of the first row of task `id` from `i` on, or -1.
pub open spec fn row_pos(rows: Seq<RowView>, id: u128, i: int) -> int
    decreases rows.len() - i,
    when 0 <= i
{
    if i >= rows.len() {
        -1
    } else if rows[i].id == id {
        i
    } else {
        row_pos(rows, id, i + 1)
    }
}

pub(crate) proof fn lemma_row_pos(rows: Seq<RowView>, id: u128, i: int)
    requires
        0 <= i,
    ensures
        -1 <= row_pos(rows, id, i) < rows.len(),
        row_pos(rows, id, i) >= 0 ==> i <= row_pos(rows, id, i) && rows[row_pos(rows, id, i)].id == id,
    decreases rows.len() - i,
{
    if i < rows.len() && rows[i].id != id {
        lemma_row_pos(rows, id, i + 1);
    }
}

/// Position of the first row of task `id`.
pub(crate) fn find_row(rows: &Vec<TuiRow>, id: u128) -> (r: Option<usize>)
    ensures
        match r {
            Some(p) => p as int == row_pos(row_views(rows@), id, 0),
            None => row_pos(row_views(rows@), id, 0) == -1,
        },
{
    let mut i: usize = 0;
    while i < rows.len()
        invariant
            i <= rows@.len(),
            row_pos(row_views(rows@), id, 0) == row_pos(row_views(rows@), id, i as int),
        decreases rows@.len() - i,
    {
        proof {
            assert(row_views(rows@)[i as int] == rows@[i as int]@);
        }
        if rows[i].id == id {
            return Some(i);
        }
        i = i + 1;
    }
    None
}

/// The end of the rows below the row at `pos` (of depth `d`): the first row
/// from `e` on that is not deeper.
pub open spec fn rows_below_end(rows: Seq<RowView>, d: int, e: int) -> int
    decreases rows.len() - e,
    when 0 <= e
{
    if e < rows.len() && rows[e].depth > d {
        rows_below_end(rows, d, e + 1)
    } else {
        e
    }
}

impl App {
    /// `new` is `old` with the cursor moved to the task of row `pos`: the
    /// column of its status is focused and its cursor put on it (nothing
    /// happens when the task is not in the list).
    pub open spec fn on_row(old: App, new: App, pos: int) -> bool {
        App::navigated(old, new, old.rows()[pos].id)
    }

    /// `new` is `old` with the cursor moved onto task `id`: the column of its
    /// status is focused and its cursor put on it (nothing happens when the
    /// task is not found).
    pub open spec fn navigated(old: App, new: App, id: u128) -> bool {
        match old.find(id) {
            None => new == old,
            Some(t) => {
                let col = status_column(t.status);
                &&& new.cursor@ == App::followed_from(old, old.cursor@, col, id)
                &&& new == (App { focused_col: col, cursor: new.cursor, ..old })
            },
        }
    }

    /// Moves the cursor to the task of row `pos`.
    fn navigate_to_row(&mut self, rows: &Vec<TuiRow>, pos: usize)
        requires
            pos < rows@.len(),
            row_views(rows@) == old(self).rows(),
        ensures
            App::on_row(*old(self), *final(self), pos as int),
    {
        let id = rows[pos].id;
        proof {
            assert(row_views(rows@)[pos as int] == rows@[pos as int]@);
        }
        self.navigate_to_id(id);
    }

    /// Moves the cursor onto task `id`: focuses the column of its status and
    /// puts that column's cursor on it, when the column shows it.
    pub fn navigate_to_id(&mut self, id: u128)
        ensures
            App::navigated(*old(self), *final(self), id),
    {
        let status = match self.task_ref(id) {
            Some(t) => t.status,
            None => {
                return;
            },
        };
        let col = column_of_status(status);
        self.focused_col = col;
        let ghost mid = *self;
        proof {
            App::lemma_view_frame(&mid, &*old(self));
        }
        self.follow_task(col, id);
    }

    /// What `tree_goto_first` makes of `old`: the state `new`.
    pub open spec fn tree_goto_first_done(old: App, new: App) -> bool {
        &&& (old.rows().len() == 0 ==> new == old)
        &&& (old.rows().len() > 0 ==> App::on_row(old, new, 0))
    }

    /// Puts the cursor on the first row of the tree view.
    pub fn tree_goto_first(&mut self)
        ensures
            App::tree_goto_first_done(*old(self), *final(self)),
    {
        let rows = self.build_tui_rows();
        if rows.len() > 0 {
            self.navigate_to_row(&rows, 0);
        }
    }

    /// What `tree_goto_last` makes of `old`: the state `new`.
    pub open spec fn tree_goto_last_done(old: App, new: App) -> bool {
        &&& (old.rows().len() == 0 ==> new == old)
        &&& (old.rows().len() > 0 ==> App::on_row(old, new, old.rows().len() - 1))
    }

    /// Puts the cursor on the last row of the tree view.
    pub fn tree_goto_last(&mut self)
        ensures
            App::tree_goto_last_done(*old(self), *final(self)),
    {
        let rows = self.build_tui_rows();
        if rows.len() > 0 {
            self.navigate_to_row(&rows, rows.len() - 1);
        }
    }

    /// The row of the cursor's task, or the first row when it has none.
    pub open spec fn cursor_row(&self) -> int {
        let p = match self.selected(self.focused_col) {
            Some(id) => row_pos(self.rows(), id, 0),
            None => -1,
        };
        if p >= 0 {
            p
        } else {
            0
        }
    }

    /// What `navigate_tree` makes of `old`: the state `new`.
    pub open spec fn navigate_tree_done(old: App, new: App, delta: i32) -> bool {
        &&& (old.rows().len() == 0 ==> new == old)
        &&& (old.rows().len() > 0 ==> {
            let target = old.cursor_row() + delta;
            let last = old.rows().len() - 1;
            App::on_row(
                old,
                new,
                if target < 0 {
                    0
                } else if target > last {
                    last
                } else {
                    target
                },
            )
        })
    }

    /// Moves the cursor `delta` rows down the tree view (up when negative),
    /// stopping at the first and last rows.
    pub fn navigate_tree(&mut self, delta: i32)
        ensures
            App::navigate_tree_done(*old(self), *final(self), delta),
    {
        let rows = self.build_tui_rows();
        if rows.len() == 0 {
            return;
        }
        let current = match self.selected_task_id(self.focused_col) {
            Some(id) => match find_row(&rows, id) {
                Some(p) => p,
                None => 0,
            },
            None => 0,
        };
        proof {
            lemma_row_pos(row_views(rows@), match self.selected(self.focused_col) {
                Some(id) => id,
                None => 0,
            }, 0);
        }
        let last = rows.len() - 1;
        let target: i128 = current as i128 + delta as i128;
        let pos: usize = if target < 0 {
            0
        } else if target > last as i128 {
            last
        } else {
            target as usize
        };
        self.navigate_to_row(&rows, pos);
    }

    /// The tasks of the visual selection: the rows from the anchor to the
    /// cursor's row (the anchor's own when the cursor's task has no row),
    /// top to bottom; none without an anchor on a row.
    pub open spec fn visual_ids(&self) -> Seq<u128> {
        let rows = self.rows();
        match self.visual_anchor_id {
            None => Seq::empty(),
            Some(a) => {
                let ap = row_pos(rows, a, 0);
                if ap < 0 {
                    Seq::empty()
                } else {
                    let cp0 = match self.selected(self.focused_col) {
                        Some(id) => row_pos(rows, id, 0),
                        None => -1,
                    };
                    let cp = if cp0 >= 0 { cp0 } else { ap };
                    let lo = if ap <= cp { ap } else { cp };
                    let hi = if ap <= cp { cp } else { ap };
                    Seq::new((hi - lo + 1) as nat, |i: int| rows[lo + i].id)
                }
            },
        }
    }

    /// The task identifiers the visual selection covers, top to bottom.
    pub fn visual_selected_ids(&self) -> (r: Vec<u128>)
        ensures
            r@ == self.visual_ids(),
    {
        let anchor = match self.visual_anchor_id {
            Some(a) => a,
            None => {
                return Vec::new();
            },
        };
        let rows = self.build_tui_rows();
        let ghost rv = row_views(rows@);
        proof {
            lemma_row_pos(rv, anchor, 0);
        }
        let ap = match find_row(&rows, anchor) {
            Some(p) => p,
            None => {
                return Vec::new();
            },
        };
        let cp = match self.selected_task_id(self.focused_col) {
            Some(id) => {
                proof {
                    lemma_row_pos(rv, id, 0);
                }
                match find_row(&rows, id) {
                    Some(p) => p,
                    None => ap,
                }
            },
            None => ap,
        };
        let lo = if ap <= cp {
            ap
        } else {
            cp
        };
        let hi = if ap <= cp {
            cp
        } else {
            ap
        };
        let n = rows.len();
        let mut r: Vec<u128> = Vec::new();
        let mut i: usize = lo;
        while i <= hi
            invariant
                lo <= i <= hi + 1,
                n == rows@.len(),
                hi < n,
                rv == row_views(rows@),
                r@ == Seq::new((i - lo) as nat, |x: int| rv[lo + x].id),
            decreases hi + 1 - i,
        {
            proof {
                assert(rv[i as int] == rows@[i as int]@);
            }
            r.push(rows[i].id);
            i = i + 1;
            proof {
                assert(r@ =~= Seq::new((i - lo) as nat, |x: int| rv[lo + x].id));
            }
        }
        r
    }
}

/// Every row of a visit from depth `d` with `fuel` is at least `d` and less
/// than `d + fuel` deep.
proof fn lemma_visit_depth(
    ts: Seq<TaskView>,
    vis: Seq<u128>,
    folded: Set<u128>,
    id: u128,
    d: int,
    pp: Seq<char>,
    is_last: bool,
    fuel: nat,
)
    ensures
        forall|j: int|
            0 <= j < visit_rows(ts, vis, folded, id, d, pp, is_last, fuel).len() ==> d <= (
            #[trigger] visit_rows(ts, vis, folded, id, d, pp, is_last, fuel)[j]).depth < d + fuel,
    decreases fuel, 0int, 0int,
{
    if fuel > 0 && last_index(ts, id) >= 0 {
        let t = ts[last_index(ts, id)];
        let cp = if d == 0 { Seq::empty() } else { pp + continuation(is_last) };
        let vk = shown_kids(t.children, vis, t.children.len() as int);
        lemma_kid_depth(ts, vis, folded, vk, 0, d + 1, cp, (fuel - 1) as nat);
        let r = visit_rows(ts, vis, folded, id, d, pp, is_last, fuel);
        let k = visit_kid_rows(ts, vis, folded, vk, 0, d + 1, cp, (fuel - 1) as nat);
        assert forall|j: int| 0 <= j < r.len() implies d <= (#[trigger] r[j]).depth < d + fuel by {
            if j > 0 {
                assert(r[j] == k[j - 1]);
            }
        }
    }
}

proof fn lemma_kid_depth(
    ts: Seq<TaskView>,
    vis: Seq<u128>,
    folded: Set<u128>,
    kids: Seq<u128>,
    i: int,
    d: int,
    pp: Seq<char>,
    fuel: nat,
)
    ensures
        forall|j: int|
            0 <= j < visit_kid_rows(ts, vis, folded, kids, i, d, pp, fuel).len() ==> d <= (
            #[trigger] visit_kid_rows(ts, vis, folded, kids, i, d, pp, fuel)[j]).depth < d + fuel,
    decreases fuel, 1int, kids.len() - i,
{
    if 0 <= i < kids.len() {
        lemma_visit_depth(ts, vis, folded, kids[i], d, pp, i == kids.len() - 1, fuel);
        lemma_kid_depth(ts, vis, folded, kids, i + 1, d, pp, fuel);
        let here = visit_rows(ts, vis, folded, kids[i], d, pp, i == kids.len() - 1, fuel);
        let rest = visit_kid_rows(ts, vis, folded, kids, i + 1, d, pp, fuel);
        let r = visit_kid_rows(ts, vis, folded, kids, i, d, pp, fuel);
        assert forall|j: int| 0 <= j < r.len() implies d <= (#[trigger] r[j]).depth < d + fuel by {
            if j < here.len() {
                assert(r[j] == here[j]);
            } else {
                assert(r[j] == rest[j - here.len()]);
            }
        }
    }
}

proof fn lemma_root_depth(ts: Seq<TaskView>, vis: Seq<u128>, folded: Set<u128>, roots: Seq<u128>, i: int)
    requires
        0 <= i,
    ensures
        forall|j: int|
            0 <= j < root_rows(ts, vis, folded, roots, i).len() ==> (#[trigger] root_rows(
                ts,
                vis,
                folded,
                roots,
                i,
            )[j]).depth < ts.len(),
    decreases roots.len() - i,
{
    if i < roots.len() {
        lemma_visit_depth(ts, vis, folded, roots[i], 0, Seq::empty(), i == roots.len() - 1, ts.len() as nat);
        lemma_root_depth(ts, vis, folded, roots, i + 1);
        let here = visit_rows(ts, vis, folded, roots[i], 0, Seq::empty(), i == roots.len() - 1, ts.len() as nat);
        let rest = root_rows(ts, vis, folded, roots, i + 1);
        let r = root_rows(ts, vis, folded, roots, i);
        assert forall|j: int| 0 <= j < r.len() implies (#[trigger] r[j]).depth < ts.len() by {
            if j < here.len() {
                assert(r[j] == here[j]);
            } else {
                assert(r[j] == rest[j - here.len()]);
            }
        }
    }
}

impl App {
    /// Where the row being inserted goes, and the row itself, while the
    /// insert prompt is open.
    pub open spec fn insert_row(&self) -> Option<(int, RowView)> {
        match self.insert {
            None => None,
            Some(st) => {
                let rows = self.rows();
                let len = rows.len() as int;
                let idx0 = match st.position {
                    crate::board::InsertPosition::AtBeginning => 0,
                    crate::board::InsertPosition::AfterParent(a) => {
                        let p = row_pos(rows, a, 0);
                        if p >= 0 { p + 1 } else { len }
                    },
                    crate::board::InsertPosition::AfterSibling(a) => {
                        let p = row_pos(rows, a, 0);
                        if p >= 0 { rows_below_end(rows, rows[p].depth, p + 1) } else { len }
                    },
                };
                let idx = if idx0 < len { idx0 } else { len };
                let (depth, dp, cp) = match st.parent_id {
                    Some(pid) => {
                        let pp = row_pos(rows, pid, 0);
                        let d = if pp >= 0 { rows[pp].depth + 1 } else { 1 };
                        let pcp = if pp >= 0 { rows[pp].children_prefix } else { Seq::empty() };
                        let sib = idx < len && rows[idx].depth == d;
                        (d, pcp + connector(!sib), pcp + continuation(!sib))
                    },
                    None => (0, Seq::empty(), Seq::empty()),
                };
                Some(
                    (
                        idx,
                        RowView {
                            id: 0,
                            title: st.title@,
                            depth,
                            kind: kind_of(st.status),
                            display_prefix: dp,
                            children_prefix: cp,
                            is_collapsed: false,
                        },
                    ),
                )
            },
        }
    }

    /// The row of the task being inserted and where it goes among the rows.
    pub fn inline_insert_row(&self) -> (r: Option<(usize, TuiRow)>)
        ensures
            match r {
                Some((i, row)) => self.insert_row() == Some((i as int, row@)),
                None => self.insert_row() is None,
            },
    {
        let st = match &self.insert {
            Some(s) => s,
            None => {
                return None;
            },
        };
        let rows = self.build_tui_rows();
        let ghost rv = row_views(rows@);
        let n = rows.len();
        let tn = self.tasks.len();
        proof {
            let ts = views(self.tasks@);
            let vis = self.shown_all_ids();
            lemma_root_depth(ts, vis, self.collapsed@, row_roots(ts, vis, ts.len() as int), 0);
        }
        let idx0: usize = match st.position {
            crate::board::InsertPosition::AtBeginning => 0,
            crate::board::InsertPosition::AfterParent(a) => {
                proof {
                    lemma_row_pos(rv, a, 0);
                }
                match find_row(&rows, a) {
                    Some(p) => p + 1,
                    None => n,
                }
            },
            crate::board::InsertPosition::AfterSibling(a) => {
                proof {
                    lemma_row_pos(rv, a, 0);
                }
                match find_row(&rows, a) {
                    Some(p) => {
                        proof {
                            assert(rv[p as int] == rows@[p as int]@);
                        }
                        let d = rows[p].depth;
                        let mut e: usize = p + 1;
                        while e < n && rows[e].depth > d
                            invariant
                                p < e <= n,
                                n == rows@.len(),
                                rv == row_views(rows@),
                                d as int == rv[p as int].depth,
                                rows_below_end(rv, d as int, p + 1) == rows_below_end(rv, d as int, e as int),
                            decreases n - e,
                        {
                            proof {
                                assert(rv[e as int] == rows@[e as int]@);
                            }
                            e = e + 1;
                        }
                        proof {
                            if e < n {
                                assert(rv[e as int] == rows@[e as int]@);
                            }
                        }
                        e
                    },
                    None => n,
                }
            },
        };
        let idx = if idx0 < n {
            idx0
        } else {
            n
        };
        let (depth, display_prefix, children_prefix): (usize, String, String) = match st.parent_id {
            Some(pid) => {
                proof {
                    lemma_row_pos(rv, pid, 0);
                }
                let pp = find_row(&rows, pid);
                let d: usize = match pp {
                    Some(q) => {
                        proof {
                            assert(rv[q as int] == rows@[q as int]@);
                            assert(rv[q as int].depth < tn);
                        }
                        rows[q].depth + 1
                    },
                    None => 1,
                };
                let sib = idx < n && rows[idx].depth == d;
                proof {
                    if idx < n {
                        assert(rv[idx as int] == rows@[idx as int]@);
                    }
                }
                let pcp_text: String = match pp {
                    Some(q) => rows[q].children_prefix.clone(),
                    None => String::new(),
                };
                let pcp = pcp_text.as_str();
                let conn = if sib {
                    "\u{251c}\u{2500} "
                } else {
                    "\u{2570}\u{2500} "
                };
                let cont = if sib {
                    "\u{2502}  "
                } else {
                    "   "
                };
                (d, concat(pcp, conn), concat(pcp, cont))
            },
            None => (0, String::new(), String::new()),
        };
        let kind = match st.status {
            crate::task::Status::Todo => RowKind::Todo,
            crate::task::Status::Doing => RowKind::Doing,
            crate::task::Status::Done => RowKind::Done,
        };
        Some(
            (
                idx,
                TuiRow {
                    id: 0,
                    title: st.title.clone(),
                    depth,
                    kind,
                    display_prefix,
                    children_prefix,
                    is_collapsed: false,
                },
            ),
        )
    }

    /// The row the tree view keeps in sight: the row being inserted while
    /// inserting, else the cursor's row.
    pub open spec fn focus_row(&self) -> int {
        match self.insert_row() {
            Some((i, _)) => i,
            None => self.cursor_row(),
        }
    }

    /// The scroll offset that keeps the focused row six rows clear of the
    /// top and bottom of a window `height` rows tall, from `current`.
    pub open spec fn scroll_for(sel: int, current: int, height: int) -> int {
        if height == 0 {
            0
        } else {
            let lo = if sel + 7 - height > 0 { sel + 7 - height } else { 0 };
            let hi = if sel - 6 > 0 { sel - 6 } else { 0 };
            if lo > hi {
                lo
            } else if current < lo {
                lo
            } else if current > hi {
                hi
            } else {
                current
            }
        }
    }

    /// Scroll offset of the tree view.
    pub fn compute_scroll(&self, current_scroll: usize, task_area_height: usize) -> (r: usize)
        ensures
            r == App::scroll_for(self.focus_row(), current_scroll as int, task_area_height as int) as usize,
    {
        let sel: usize = match self.inline_insert_row() {
            Some((i, _)) => i,
            None => {
                let rows = self.build_tui_rows();
                match self.selected_task_id(self.focused_col) {
                    Some(id) => match find_row(&rows, id) {
                        Some(p) => p,
                        None => 0,
                    },
                    None => 0,
                }
            },
        };
        if task_area_height == 0 {
            return 0;
        }
        let s = sel as u128;
        let h = task_area_height as u128;
        let c = current_scroll as u128;
        let lo: u128 = if s + 7 > h {
            s + 7 - h
        } else {
            0
        };
        let hi: u128 = if s > 6 {
            s - 6
        } else {
            0
        };
        let v: u128 = if lo > hi {
            lo
        } else if c < lo {
            lo
        } else if c > hi {
            hi
        } else {
            c
        };
        #[verifier::truncate]
        (v as usize)
    }
}

} // verus!
