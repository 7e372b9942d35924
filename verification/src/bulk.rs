//! Bulk insert: a run of numbered children added under one task at once.

use vstd::prelude::*;

use crate::board::{App, BulkInsertState, BulkInsertStep, Mode};
use crate::edit::{update_first, with_children};
use crate::insert::after_index;
use crate::outside::{now_millis, valid_ms};
use crate::status::{propagate_status_up, propagate_up};
use crate::task::{Status, Task, TaskView, views};
use crate::text::{blank, created_message, decimal, numbered, trim_text, trimmed};
use crate::tree::{find_index, find_last_index, last_index, lemma_first_index, lemma_last_index_upto, lookup};

verus! {

/// The greatest of the last positions in the list of `kids[..k]`, ignoring
/// children not in the list; -1 when there is none.
pub open spec fn last_child_pos(ts: Seq<TaskView>, kids: Seq<u128>, k: int) -> int
    decreases k,
{
    if k <= 0 {
        -1
    } else {
        let r = last_child_pos(ts, kids, k - 1);
        let li = last_index(ts, kids[k - 1]);
        if li > r {
            li
        } else {
            r
        }
    }
}

/// Where a run of new children of `pid` goes in the list: after the last of
/// its children, or right after it when none is in the list.
pub open spec fn block_index(ts: Seq<TaskView>, pid: u128) -> int {
    let kids = match lookup(ts, pid) {
        Some(p) => p.children,
        None => Seq::empty(),
    };
    let m = last_child_pos(ts, kids, kids.len() as int);
    if m >= 0 {
        m + 1
    } else {
        after_index(ts, pid)
    }
}

/// Identifiers of a run of tasks.
pub open spec fn ids_of(s: Seq<TaskView>) -> Seq<u128> {
    s.map_values(|t: TaskView| t.id)
}

/// The tasks once the run `new` is added as the last children of `pid`.
pub open spec fn with_block(ts: Seq<TaskView>, pid: u128, new: Seq<TaskView>) -> Seq<TaskView> {
    let p = block_index(ts, pid);
    update_first(
        ts.subrange(0, p) + new + ts.subrange(p, ts.len() as int),
        pid,
        |x: TaskView| with_children(x, x.children + ids_of(new)),
    )
}

/// `new` are the tasks numbered `prefix 1` to `prefix n`, Todo children of
/// `pid` in project `project`, each just created at a valid time.
pub open spec fn numbered_run(new: Seq<TaskView>, prefix: Seq<char>, project: Seq<char>, pid: u128, n: nat) -> bool {
    &&& new.len() == n
    &&& forall|i: int|
        0 <= i < n ==> {
            let t = #[trigger] new[i];
            &&& t.title == prefix + seq![' '] + decimal((i + 1) as nat)
            &&& t.project == project
            &&& t.status == Status::Todo
            &&& t.parent_id == Some(pid)
            &&& t.children.len() == 0
            &&& t.transitions.len() == 0
            &&& t.flags == 0
            &&& valid_ms(t.created_at)
        }
}

proof fn lemma_last_child_pos(ts: Seq<TaskView>, kids: Seq<u128>, k: int)
    requires
        0 <= k <= kids.len(),
    ensures
        -1 <= last_child_pos(ts, kids, k) < ts.len(),
    decreases k,
{
    if k > 0 {
        lemma_last_child_pos(ts, kids, k - 1);
        lemma_last_index_upto(ts, kids[k - 1], ts.len() - 1);
    }
}

/// Position just after the last of the list's children of `pid`, or just
/// after `pid`, or the end of the list.
fn block_position(tasks: &Vec<Task>, pid: u128) -> (r: usize)
    ensures
        r as int == block_index(views(tasks@), pid),
        r <= tasks@.len(),
{
    let ghost ts = views(tasks@);
    let n = tasks.len();
    let kids: Vec<u128> = match find_index(tasks, pid) {
        Some(i) => {
            proof {
                lemma_first_index(ts, pid);
            }
            let c = tasks[i].children.clone();
            proof {
                assert(c@ =~= tasks@[i as int].children@);
            }
            c
        },
        None => Vec::new(),
    };
    let mut best: Option<usize> = None;
    let mut k: usize = 0;
    while k < kids.len()
        invariant
            k <= kids@.len(),
            ts == views(tasks@),
            n == tasks@.len(),
            match best {
                Some(b) => b as int == last_child_pos(ts, kids@, k as int) && b < n,
                None => last_child_pos(ts, kids@, k as int) == -1,
            },
        decreases kids@.len() - k,
    {
        proof {
            lemma_last_index_upto(ts, kids@[k as int], ts.len() - 1);
        }
        match find_last_index(tasks, kids[k]) {
            Some(li) => {
                best = match best {
                    Some(b) => if li > b {
                        Some(li)
                    } else {
                        Some(b)
                    },
                    None => Some(li),
                };
            },
            None => {},
        }
        k = k + 1;
    }
    proof {
        lemma_first_index(ts, pid);
    }
    match best {
        Some(b) => b + 1,
        None => match find_index(tasks, pid) {
            Some(i) => i + 1,
            None => n,
        },
    }
}

/// Inserts the run `block` at `at`, in order; gives back their identifiers.
fn insert_run(tasks: &mut Vec<Task>, at: usize, block: Vec<Task>) -> (ids: Vec<u128>)
    requires
        at <= old(tasks)@.len(),
    ensures
        views(final(tasks)@) == views(old(tasks)@).subrange(0, at as int) + views(block@) + views(
            old(tasks)@,
        ).subrange(at as int, old(tasks)@.len() as int),
        ids@ == ids_of(views(block@)),
{
    let ghost ts = views(tasks@);
    let ghost bv = views(block@);
    let count = block.len();
    let mut block = block;
    let mut ids: Vec<u128> = Vec::new();
    let mut i: usize = 0;
    while i < count
        invariant
            at <= ts.len(),
            i <= count,
            count == bv.len(),
            block@.len() == count - i,
            views(block@) == bv.subrange(i as int, count as int),
            tasks@.len() == ts.len() + i,
            views(tasks@) == ts.subrange(0, at as int) + bv.subrange(0, i as int) + ts.subrange(at as int, ts.len() as int),
            ids@ == ids_of(bv.subrange(0, i as int)),
        decreases count - i,
    {
        proof {
            assert(views(block@)[0] == block@[0]@);
        }
        let ghost bb = block@;
        let t = block.remove(0);
        let tid = t.id;
        let n = tasks.len();
        proof {
            assert forall|j: int| 0 <= j < block@.len() implies #[trigger] views(block@)[j] == bv[i + 1 + j] by {
                assert(block@[j] == bb[j + 1]);
                assert(views(bb)[j + 1] == bv.subrange(i as int, count as int)[j + 1]);
            }
        }
        let ghost tv = t@;
        let ghost old_v = views(tasks@);
        proof {
            assert(tv == bv[i as int]);
        }
        tasks.insert(at + i, t);
        ids.push(tid);
        i = i + 1;
        proof {
            assert(views(tasks@) =~= old_v.insert(at + i - 1, tv));
            let lhs = views(tasks@);
            let rhs = ts.subrange(0, at as int) + bv.subrange(0, i as int) + ts.subrange(at as int, ts.len() as int);
            assert(lhs.len() == rhs.len());
            assert forall|j: int| 0 <= j < lhs.len() implies lhs[j] == rhs[j] by {
                if j < at {
                } else if j < at + i - 1 {
                } else if j == at + i - 1 {
                } else {
                }
            }
            assert(views(block@) =~= bv.subrange(i as int, count as int));
            assert(views(tasks@) =~= ts.subrange(0, at as int) + bv.subrange(0, i as int) + ts.subrange(
                at as int,
                ts.len() as int,
            ));
            assert(ids@ =~= ids_of(bv.subrange(0, i as int)));
        }
    }
    proof {
        assert(bv.subrange(0, i as int) =~= bv);
    }
    ids
}

/// Appends `ids` to the children of the first task `pid`.
fn append_children(tasks: &mut Vec<Task>, pid: u128, ids: &Vec<u128>)
    ensures
        views(final(tasks)@) == update_first(
            views(old(tasks)@),
            pid,
            |x: TaskView| with_children(x, x.children + ids@),
        ),
{
    let ghost ts1 = views(tasks@);
    match find_index(tasks, pid) {
        Some(k) => {
            proof {
                lemma_first_index(ts1, pid);
            }
            let mut j: usize = 0;
            let ghost kids0 = tasks@[k as int].children@;
            while j < ids.len()
                invariant
                    j <= ids@.len(),
                    k < tasks@.len(),
                    tasks@.len() == ts1.len(),
                    kids0 == ts1[k as int].children,
                    forall|x: int| 0 <= x < ts1.len() && x != k ==> #[trigger] views(tasks@)[x] == ts1[x],
                    views(tasks@)[k as int] == with_children(ts1[k as int], kids0 + ids@.subrange(0, j as int)),
                decreases ids@.len() - j,
            {
                let ghost before = tasks@;
                let c = ids[j];
                tasks[k].children.push(c);
                j = j + 1;
                proof {
                    assert(kids0 + ids@.subrange(0, j as int) =~= (kids0 + ids@.subrange(0, j - 1)).push(c));
                    assert forall|x: int| 0 <= x < ts1.len() && x != k implies #[trigger] views(tasks@)[x]
                        == ts1[x] by {
                        assert(tasks@[x] == before[x]);
                        assert(views(before)[x] == ts1[x]);
                    }
                }
            }
            proof {
                assert(ids@.subrange(0, j as int) =~= ids@);
                assert(views(tasks@) =~= update_first(
                    ts1,
                    pid,
                    |x: TaskView| with_children(x, x.children + ids@),
                ));
            }
        },
        None => {},
    }
}

impl App {
    /// `new` is `old` after the run `block` was added as the last children of
    /// `pid` at time `now`, the statuses above the first of them derived again.
    pub open spec fn block_added(old: App, new: App, pid: u128, block: Seq<TaskView>, now: i64) -> bool {
        let ts1 = with_block(views(old.tasks@), pid, block);
        &&& views(new.tasks@) == (if block.len() > 0 {
            propagate_up(ts1, block[0].id, now)
        } else {
            ts1
        })
        &&& new == (App { tasks: new.tasks, ..old })
    }

    /// Adds `block` as the last children of `pid` (after the last of them in
    /// the list), then derives the statuses above the first of them at `now`.
    pub fn add_child_block(&mut self, pid: u128, block: Vec<Task>, now: i64)
        ensures
            App::block_added(*old(self), *final(self), pid, views(block@), now),
    {
        let ghost bv = views(block@);
        let count = block.len();
        let p = block_position(&self.tasks, pid);
        let ids = insert_run(&mut self.tasks, p, block);
        append_children(&mut self.tasks, pid, &ids);
        if count > 0 {
            let first = ids[0];
            propagate_status_up(&mut self.tasks, first, now);
        }
    }
}

impl App {
    /// `new` is `old` after some run numbered `prefix 1` to `prefix n` was
    /// added under `pid`, with fresh identifiers, at some time.
    pub open spec fn bulk_done(old: App, new: App, pid: u128, prefix: Seq<char>, project: Seq<char>, n: nat) -> bool {
        exists|block: Seq<TaskView>, now: i64|
            numbered_run(block, prefix, project, pid, n) && #[trigger] App::block_added(old, new, pid, block, now)
    }

    /// What `begin_bulk_insert` makes of `old`: the state `new`.
    pub open spec fn begin_bulk_insert_done(old: App, new: App) -> bool {
        &&& (old.selected(old.focused_col) is None ==> new == old)
        &&& (old.selected(old.focused_col) is Some ==> {
            &&& new.bulk_insert matches Some(b) && b.step == BulkInsertStep::Num && b.num_input@.len() == 0
                && b.num == 0 && b.prefix_input@.len() == 0
            &&& (new == (App {
                bulk_insert: new.bulk_insert,
                mode: Mode::BulkInsert,
                ..old
            }))
        })
    }

    /// Opens the bulk-insert prompt (count first) when a task is under the cursor.
    pub fn begin_bulk_insert(&mut self)
        ensures
            App::begin_bulk_insert_done(*old(self), *final(self)),
    {
        if self.selected_task_id(self.focused_col).is_none() {
            return;
        }
        self.bulk_insert = Some(
            BulkInsertState {
                step: BulkInsertStep::Num,
                num_input: String::new(),
                num: 0,
                prefix_input: String::new(),
            },
        );
        self.mode = Mode::BulkInsert;
    }

    /// What `commit_bulk_insert` makes of `old`: the state `new`.
    pub open spec fn commit_bulk_insert_done(old: App, new: App) -> bool {
        &&& (new.mode == Mode::Normal)
        &&& (new.bulk_insert is None)
        &&& (match old.bulk_insert {
            None => new == (App { mode: Mode::Normal, ..old }),
            Some(st) => match old.selected(old.focused_col) {
                None => new == (App { mode: Mode::Normal, bulk_insert: None, ..old }),
                Some(pid) => if blank(st.prefix_input@) || st.num == 0 {
                    new == (App { mode: Mode::Normal, bulk_insert: None, ..old })
                } else {
                    &&& App::bulk_done(
                        App {
                            mode: Mode::Normal,
                            bulk_insert: None,
                            status_message: new.status_message,
                            ..old
                        },
                        new,
                        pid,
                        trimmed(st.prefix_input@),
                        match old.find(pid) {
                            Some(t) => t.project,
                            None => Seq::empty(),
                        },
                        st.num as nat,
                    )
                    &&& new.status_message matches Some(m) && m@ == "Created "@ + decimal(
                        st.num as nat,
                    ) + " tasks"@
                },
            },
        })
    }

    /// Closes the bulk-insert prompt and adds the children `prefix 1` to
    /// `prefix n` under the cursor's task (its project, status Todo), after
    /// its last child in the list; a blank prefix or a count of zero adds
    /// nothing.
    pub fn commit_bulk_insert(&mut self)
        ensures
            App::commit_bulk_insert_done(*old(self), *final(self)),
    {
        let taken = self.bulk_insert.take();
        self.mode = Mode::Normal;
        proof {
            App::lemma_view_frame(&*old(self), &*self);
        }
        let state = match taken {
            Some(s) => s,
            None => {
                return;
            },
        };
        let parent_id = match self.selected_task_id(self.focused_col) {
            Some(id) => id,
            None => {
                return;
            },
        };
        let prefix = trim_text(state.prefix_input.as_str());
        if prefix.as_str().unicode_len() == 0 || state.num == 0 {
            return;
        }
        let project = match self.task_ref(parent_id) {
            Some(t) => t.project.clone(),
            None => String::new(),
        };
        let n = state.num;
        let mut block: Vec<Task> = Vec::new();
        let mut i: usize = 0;
        while i < n
            invariant
                i <= n,
                n == state.num,
                block@.len() == i,
                forall|j: int|
                    0 <= j < block@.len() ==> {
                        let t = #[trigger] views(block@)[j];
                        &&& t.title == prefix@ + seq![' '] + decimal((j + 1) as nat)
                        &&& t.project == project@
                        &&& t.status == Status::Todo
                        &&& t.parent_id == Some(parent_id)
                        &&& t.children.len() == 0
                        &&& t.transitions.len() == 0
                        &&& t.flags == 0
                        &&& valid_ms(t.created_at)
                    },
            decreases n - i,
        {
            let title = numbered(prefix.as_str(), i + 1);
            let mut task = Task::new(title, project.clone(), Status::Todo);
            task.parent_id = Some(parent_id);
            let ghost before = block@;
            block.push(task);
            proof {
                assert forall|j: int| 0 <= j < block@.len() implies {
                    let t = #[trigger] views(block@)[j];
                    &&& t.title == prefix@ + seq![' '] + decimal((j + 1) as nat)
                    &&& t.project == project@
                    &&& t.status == Status::Todo
                    &&& t.parent_id == Some(parent_id)
                    &&& t.children.len() == 0
                    &&& t.transitions.len() == 0
                    &&& t.flags == 0
                    &&& valid_ms(t.created_at)
                } by {
                    if j < before.len() {
                        assert(views(block@)[j] == views(before)[j]);
                    }
                }
            }
            i = i + 1;
        }
        let ghost bv = views(block@);
        let now = now_millis();
        let ghost mid = *self;
        self.add_child_block(parent_id, block, now);
        self.status_message = Some(created_message(n));
        proof {
            assert forall|j: int| 0 <= j < n implies {
                let t = #[trigger] bv[j];
                &&& t.title == prefix@ + seq![' '] + decimal((j + 1) as nat)
                &&& t.project == project@
                &&& t.status == Status::Todo
                &&& t.parent_id == Some(parent_id)
                &&& t.children.len() == 0
                &&& t.transitions.len() == 0
                &&& t.flags == 0
                &&& valid_ms(t.created_at)
            } by {
                assert(bv[j] == views(block@)[j]);
            }
            assert(numbered_run(bv, prefix@, project@, parent_id, n as nat));
            assert(App::block_added(
                App { status_message: self.status_message, ..mid },
                *self,
                parent_id,
                bv,
                now,
            ));
        }
    }
}

} // verus!
