//! Tasks, their status and the history of status changes.

use vstd::prelude::*;

use crate::outside::{fresh_task_id, now_millis, valid_ms};

verus! {

/// The three workflow states a task can be in.
#[derive(Debug, Clone, Copy, PartialEq, Eq, Structural)]
pub enum Status {
    Todo,
    Doing,
    Done,
}

/// The text shown for a status.
pub open spec fn status_label(s: Status) -> Seq<char> {
    match s {
        Status::Todo => "TODO"@,
        Status::Doing => "DOING"@,
        Status::Done => "DONE"@,
    }
}

impl Status {
    /// Upper-case label of the status.
    pub fn label(&self) -> (l: &'static str)
        ensures
            l@ == status_label(*self),
    {
        match self {
            Status::Todo => "TODO",
            Status::Doing => "DOING",
            Status::Done => "DONE",
        }
    }
}

/// One recorded status change, at a time in milliseconds since the epoch (UTC).
#[derive(Debug, Clone, Copy, PartialEq, Eq, Structural)]
pub struct Transition {
    pub from: Status,
    pub to: Status,
    pub at: i64,
}

/// A task of the tree. Identifiers are 128-bit values; times are milliseconds
/// since the epoch (UTC).
#[derive(Debug, Clone)]
pub struct Task {
    pub id: u128,
    pub title: String,
    pub project: String,
    pub status: Status,
    pub parent_id: Option<u128>,
    pub children: Vec<u128>,
    pub created_at: i64,
    pub transitions: Vec<Transition>,
    /// Bitmask of flag membership: bit 0 = flag 1, bit 1 = flag 2, bit 2 = flag 3.
    pub flags: u8,
}

/// The mathematical value of a task: its texts and lists as sequences.
pub struct TaskView {
    pub id: u128,
    pub title: Seq<char>,
    pub project: Seq<char>,
    pub status: Status,
    pub parent_id: Option<u128>,
    pub children: Seq<u128>,
    pub created_at: i64,
    pub transitions: Seq<Transition>,
    pub flags: u8,
}

impl View for Task {
    type V = TaskView;

    open spec fn view(&self) -> TaskView {
        TaskView {
            id: self.id,
            title: self.title@,
            project: self.project@,
            status: self.status,
            parent_id: self.parent_id,
            children: self.children@,
            created_at: self.created_at,
            transitions: self.transitions@,
            flags: self.flags,
        }
    }
}

/// The values of a list of tasks.
pub open spec fn views(ts: Seq<Task>) -> Seq<TaskView> {
    ts.map_values(|t: Task| t@)
}

/// Every time the task records lies in the range of a UTC date-time.
pub open spec fn task_times_valid(t: TaskView) -> bool {
    &&& valid_ms(t.created_at)
    &&& forall|i: int| 0 <= i < t.transitions.len() ==> valid_ms(#[trigger] t.transitions[i].at)
}

/// `n` is `t` after a change to `s` recorded at `at`.
pub open spec fn transitioned(t: TaskView, s: Status, at: i64) -> TaskView {
    TaskView {
        status: s,
        transitions: t.transitions.push(Transition { from: t.status, to: s, at }),
        ..t
    }
}

/// Whole seconds between two instants, truncated toward zero.
pub open spec fn secs_between(from: i64, to: i64) -> int {
    let d = to - from;
    if d >= 0 {
        d / 1000
    } else {
        -((-d) / 1000)
    }
}

/// Running state while walking the history: (seconds so far, start of the open
/// span in the status if any, status reached).
pub open spec fn time_step(acc: (i64, Option<i64>, Status), t: Transition, s: Status) -> (
    i64,
    Option<i64>,
    Status,
) {
    let (total, enter) = if t.from == s && acc.1 is Some {
        (acc.0.wrapping_add(secs_between(acc.1->0, t.at) as i64), None::<i64>)
    } else {
        (acc.0, acc.1)
    };
    let enter2 = if t.to == s {
        Some(t.at)
    } else {
        enter
    };
    (total, enter2, t.to)
}

pub open spec fn time_fold(trs: Seq<Transition>, acc: (i64, Option<i64>, Status), s: Status) -> (
    i64,
    Option<i64>,
    Status,
)
    decreases trs.len(),
{
    if trs.len() == 0 {
        acc
    } else {
        time_step(time_fold(trs.drop_last(), acc, s), trs.last(), s)
    }
}

/// The status a task started in: the origin of its first transition, or its
/// current status when it never changed.
pub open spec fn initial_status(t: TaskView) -> Status {
    if t.transitions.len() == 0 {
        t.status
    } else {
        t.transitions[0].from
    }
}

/// Seconds the task spent in `s`, counting an open span up to `now`. The sum
/// wraps on overflow of `i64`, as the compiled program does.
pub open spec fn time_in_spec(t: TaskView, s: Status, now: i64) -> i64 {
    let init = initial_status(t);
    let acc0 = (0i64, if init == s { Some(t.created_at) } else { None::<i64> }, init);
    let r = time_fold(t.transitions, acc0, s);
    if r.2 == s && r.1 is Some {
        r.0.wrapping_add(secs_between(r.1->0, now) as i64)
    } else {
        r.0
    }
}

/// Whole seconds between two instants of the valid range, truncated toward zero.
fn seconds_between(from: i64, to: i64) -> (r: i64)
    requires
        valid_ms(from),
        valid_ms(to),
    ensures
        r == secs_between(from, to),
{
    let d = to - from;
    if d >= 0 {
        d / 1000
    } else {
        -((-d) / 1000)
    }
}

impl Task {
    /// A fresh root task with a new random identifier, created now.
    pub fn new(title: String, project: String, status: Status) -> (t: Task)
        ensures
            t.title == title,
            t.project == project,
            t.status == status,
            t.parent_id is None,
            t.children@.len() == 0,
            t.transitions@.len() == 0,
            t.flags == 0,
            task_times_valid(t@),
    {
        let id = fresh_task_id();
        let created_at = now_millis();
        Task {
            id,
            title,
            project,
            status,
            parent_id: None,
            children: Vec::new(),
            created_at,
            transitions: Vec::new(),
            flags: 0,
        }
    }

    /// A copy of the task.
    pub fn duplicate(&self) -> (r: Task)
        ensures
            r@ == self@,
    {
        Task {
            id: self.id,
            title: self.title.clone(),
            project: self.project.clone(),
            status: self.status,
            parent_id: self.parent_id,
            children: self.children.clone(),
            created_at: self.created_at,
            transitions: self.transitions.clone(),
            flags: self.flags,
        }
    }

    /// Records a change to `new_status` at time `at` and applies it.
    pub fn transition_at(&mut self, new_status: Status, at: i64)
        ensures
            final(self).status == new_status,
            final(self).transitions@ == old(self).transitions@.push(
                Transition { from: old(self).status, to: new_status, at },
            ),
            final(self).id == old(self).id,
            final(self).title == old(self).title,
            final(self).project == old(self).project,
            final(self).parent_id == old(self).parent_id,
            final(self).children == old(self).children,
            final(self).created_at == old(self).created_at,
            final(self).flags == old(self).flags,
            final(self)@ == transitioned(old(self)@, new_status, at),
    {
        let old_status = self.status;
        self.transitions.push(Transition { from: old_status, to: new_status, at });
        self.status = new_status;
    }

    /// Records a change to `new_status` at the current time and applies it.
    pub fn transition_to(&mut self, new_status: Status)
        ensures
            final(self).status == new_status,
            final(self).transitions@.len() == old(self).transitions@.len() + 1,
            final(self).transitions@.drop_last() == old(self).transitions@,
            final(self).transitions@.last().from == old(self).status,
            final(self).transitions@.last().to == new_status,
            valid_ms(final(self).transitions@.last().at),
            final(self).id == old(self).id,
            final(self).title == old(self).title,
            final(self).project == old(self).project,
            final(self).parent_id == old(self).parent_id,
            final(self).children == old(self).children,
            final(self).created_at == old(self).created_at,
            final(self).flags == old(self).flags,
    {
        let at = now_millis();
        self.transition_at(new_status, at);
        proof {
            assert(self.transitions@.drop_last() =~= old(self).transitions@);
        }
    }

    /// Seconds spent in `status`, with an open span counted up to `now`.
    pub fn time_in_at(&self, status: &Status, now: i64) -> (secs: i64)
        requires
            task_times_valid(self@),
            valid_ms(now),
        ensures
            secs == time_in_spec(self@, *status, now),
    {
        let s = *status;
        let init = if self.transitions.len() == 0 {
            self.status
        } else {
            self.transitions[0].from
        };
        let mut total: i64 = 0;
        let mut enter: Option<i64> = if init == s {
            Some(self.created_at)
        } else {
            None
        };
        let mut cur = init;
        let ghost acc0 = (0i64, enter, init);
        let mut i: usize = 0;
        while i < self.transitions.len()
            invariant
                task_times_valid(self@),
                valid_ms(now),
                i <= self.transitions@.len(),
                acc0 == (0i64, if init == s { Some(self.created_at) } else { None::<i64> }, init),
                (total, enter, cur) == time_fold(self.transitions@.subrange(0, i as int), acc0, s),
                enter is Some ==> valid_ms(enter->0),
            decreases self.transitions@.len() - i,
        {
            let t = self.transitions[i];
            proof {
                assert(self.transitions@.subrange(0, i + 1).drop_last()
                    =~= self.transitions@.subrange(0, i as int));
                assert(valid_ms(self.transitions@[i as int].at));
            }
            if t.from == s {
                match enter {
                    Some(start) => {
                        total = total.wrapping_add(seconds_between(start, t.at));
                        enter = None;
                    },
                    None => {},
                }
            }
            if t.to == s {
                enter = Some(t.at);
            }
            cur = t.to;
            i = i + 1;
        }
        proof {
            assert(self.transitions@.subrange(0, i as int) =~= self.transitions@);
        }
        if cur == s {
            match enter {
                Some(start) => {
                    total = total.wrapping_add(seconds_between(start, now));
                },
                None => {},
            }
        }
        total
    }

    /// Seconds spent in `status`, with an open span counted up to the present.
    pub fn time_in(&self, status: &Status) -> (secs: i64)
        requires
            task_times_valid(self@),
        ensures
            exists|now: i64| valid_ms(now) && secs == time_in_spec(self@, *status, now),
    {
        let now = now_millis();
        self.time_in_at(status, now)
    }
}

/// A copy of a list of tasks.
pub fn clone_tasks(v: &Vec<Task>) -> (r: Vec<Task>)
    ensures
        views(r@) == views(v@),
        r@.len() == v@.len(),
{
    let mut r: Vec<Task> = Vec::new();
    let mut i: usize = 0;
    while i < v.len()
        invariant
            i <= v@.len(),
            views(r@) =~= views(v@).subrange(0, i as int),
            r@.len() == i,
        decreases v@.len() - i,
    {
        r.push(v[i].duplicate());
        i = i + 1;
    }
    proof {
        assert(views(v@).subrange(0, i as int) =~= views(v@));
    }
    r
}

} // verus!
