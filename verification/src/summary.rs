//! The project summary shown above the board: for each named slot, the
//! tasks left to do, the tasks done and the share done.

use vstd::prelude::*;

use crate::board::{App, Column, InsertPosition, count_where, lemma_count_le, status_column};
use crate::kanban::deref_all;
use crate::status::{position_in, position_of};
use crate::task::{Status, TaskView, views};

verus! {

/// One project's line of the summary.
pub struct SummaryRow {
    pub slot: usize,
    pub name: String,
    /// Leaf tasks still to do (as `doable_count_for_slot` counts them).
    pub remaining: usize,
    /// Done tasks without children.
    pub done: usize,
    /// Whole percent done of `remaining + done`, 0 when both are 0.
    pub percent: usize,
}

/// The share `done` is of `done + rem`, in whole percent (0 of nothing).
pub open spec fn percent_done(done: int, rem: int) -> int {
    if done + rem > 0 {
        done * 100 / (done + rem)
    } else {
        0
    }
}

/// The named slots among the first `k`, in order.
pub open spec fn named_slots(projects: Seq<Option<String>>, k: int) -> Seq<int>
    decreases k,
{
    if k <= 0 {
        Seq::empty()
    } else if projects[k - 1] is Some {
        named_slots(projects, k - 1).push(k - 1)
    } else {
        named_slots(projects, k - 1)
    }
}

impl App {
    /// Whether `t` is a Done task of project `name` without children.
    pub open spec fn done_of(t: TaskView, name: Seq<char>) -> bool {
        t.project == name && t.status == Status::Done && t.children.len() == 0
    }

    /// Done tasks of project `name` that have no children.
    pub fn done_count_for(&self, name: &String) -> (n: usize)
        ensures
            n == count_where(views(self.tasks@), |t: TaskView| App::done_of(t, name@), views(self.tasks@).len() as int),
    {
        let ghost p = |t: TaskView| App::done_of(t, name@);
        let mut n: usize = 0;
        let mut k: usize = 0;
        while k < self.tasks.len()
            invariant
                k <= views(self.tasks@).len(),
                n == count_where(views(self.tasks@), p, k as int),
                p == (|t: TaskView| App::done_of(t, name@)),
            decreases views(self.tasks@).len() - k,
        {
            proof {
                lemma_count_le(views(self.tasks@), p, k as int);
            }
            let t = &self.tasks[k];
            if t.project == *name && t.status == Status::Done && t.children.len() == 0 {
                proof {
                    assert(t@.project == name@);
                }
                n = n + 1;
            } else {
                proof {
                    if t@.project == name@ && t@.status == Status::Done && t@.children.len() == 0 {
                        assert(t.project@ == name@);
                    }
                }
            }
            k = k + 1;
        }
        n
    }

    /// The summary rows, one per named slot in slot order.
    pub fn project_summary(&self) -> (rows: Vec<SummaryRow>)
        ensures
            rows@.len() == named_slots(self.projects@, 10).len(),
            forall|i: int|
                0 <= i < rows@.len() ==> {
                    let r = #[trigger] rows@[i];
                    let slot = named_slots(self.projects@, 10)[i];
                    &&& r.slot as int == slot
                    &&& self.projects@[slot] matches Some(name) && r.name@ == name@
                    &&& r.remaining == count_where(
                        views(self.tasks@),
                        |t: TaskView| t.project == r.name@ && self.leaf(t),
                        views(self.tasks@).len() as int,
                    )
                    &&& r.done == count_where(
                        views(self.tasks@),
                        |t: TaskView| App::done_of(t, r.name@),
                        views(self.tasks@).len() as int,
                    )
                    &&& r.percent == percent_done(r.done as int, r.remaining as int)
                },
    {
        let mut rows: Vec<SummaryRow> = Vec::new();
        let mut slot: usize = 0;
        while slot < 10
            invariant
                slot <= 10,
                rows@.len() == named_slots(self.projects@, slot as int).len(),
                forall|i: int|
                    0 <= i < rows@.len() ==> {
                        let r = #[trigger] rows@[i];
                        let s = named_slots(self.projects@, slot as int)[i];
                        &&& r.slot as int == s
                        &&& self.projects@[s] matches Some(name) && r.name@ == name@
                        &&& r.remaining == count_where(
                            views(self.tasks@),
                            |t: TaskView| t.project == r.name@ && self.leaf(t),
                            views(self.tasks@).len() as int,
                        )
                        &&& r.done == count_where(
                            views(self.tasks@),
                            |t: TaskView| App::done_of(t, r.name@),
                            views(self.tasks@).len() as int,
                        )
                        &&& r.percent == percent_done(r.done as int, r.remaining as int)
                    },
            decreases 10 - slot,
        {
            let ghost before = rows@;
            match &self.projects[slot] {
                Some(name) => {
                    let rem = self.doable_count_for_slot(slot);
                    let done = self.done_count_for(name);
                    let total = (rem as u128) + (done as u128);
                    let percent: usize = if total > 0 {
                        let d = done as u128;
                        let q = d * 100 / total;
                        proof {
                            let di = d as int;
                            let ti = total as int;
                            assert(di * 100 / ti <= 100) by (nonlinear_arith)
                                requires
                                    ti == rem + di,
                                    ti > 0,
                                    rem >= 0,
                                    di >= 0,
                            ;
                        }
                        q as usize
                    } else {
                        0
                    };
                    rows.push(SummaryRow { slot, name: name.clone(), remaining: rem, done, percent });
                    proof {
                        assert(named_slots(self.projects@, slot + 1) == named_slots(
                            self.projects@,
                            slot as int,
                        ).push(slot as int));
                        assert forall|i: int| 0 <= i < rows@.len() implies {
                            let r = #[trigger] rows@[i];
                            let s = named_slots(self.projects@, slot + 1)[i];
                            &&& r.slot as int == s
                            &&& self.projects@[s] matches Some(name) && r.name@ == name@
                            &&& r.remaining == count_where(
                                views(self.tasks@),
                                |t: TaskView| t.project == r.name@ && self.leaf(t),
                                views(self.tasks@).len() as int,
                            )
                            &&& r.done == count_where(
                                views(self.tasks@),
                                |t: TaskView| App::done_of(t, r.name@),
                                views(self.tasks@).len() as int,
                            )
                            &&& r.percent == percent_done(r.done as int, r.remaining as int)
                        } by {
                            if i < before.len() {
                                assert(rows@[i] == before[i]);
                            }
                        }
                    }
                },
                None => {
                    proof {
                        assert(named_slots(self.projects@, slot + 1) == named_slots(
                            self.projects@,
                            slot as int,
                        ));
                    }
                },
            }
            slot = slot + 1;
        }
        rows
    }
}

impl App {
    /// Where the task being inserted shows in the board column `col`: at the
    /// top, after its sibling (or at the end when the sibling is not shown),
    /// or after its parent (or at the top); `None` in another column or when
    /// nothing is being inserted.
    pub open spec fn board_insert_at(&self, col: Column) -> Option<int> {
        match self.insert {
            Some(st) => if status_column(st.status) != col {
                None
            } else {
                let l = self.board_list(col);
                match st.position {
                    InsertPosition::AtBeginning => Some(0),
                    InsertPosition::AfterSibling(a) => if position_in(l, a) >= 0 {
                        Some(position_in(l, a) + 1)
                    } else {
                        Some(l.len() as int)
                    },
                    InsertPosition::AfterParent(p) => if position_in(l, p) >= 0 {
                        Some(position_in(l, p) + 1)
                    } else {
                        Some(0)
                    },
                }
            },
            None => None,
        }
    }

    /// Where the task being inserted shows in the board column `col`.
    pub fn board_insert_index(&self, col: Column) -> (r: Option<usize>)
        ensures
            match r {
                Some(i) => self.board_insert_at(col) == Some(i as int),
                None => self.board_insert_at(col) is None,
            },
    {
        let (status, position) = match &self.insert {
            Some(st) => (st.status, st.position),
            None => {
                return None;
            },
        };
        if crate::board::column_of_status(status) != col {
            return None;
        }
        let visible = self.board_refs(col);
        proof {
            assert(deref_all(visible@).len() == visible@.len());
        }
        match position {
            InsertPosition::AtBeginning => Some(0),
            InsertPosition::AfterSibling(a) => match position_of(&visible, a) {
                Some(i) => {
                    proof {
                        crate::tree::lemma_first_index(deref_all(visible@), a);
                    }
                    Some(i + 1)
                },
                None => Some(visible.len()),
            },
            InsertPosition::AfterParent(p) => match position_of(&visible, p) {
                Some(i) => {
                    proof {
                        crate::tree::lemma_first_index(deref_all(visible@), p);
                    }
                    Some(i + 1)
                },
                None => Some(0),
            },
        }
    }
}

} // verus!
