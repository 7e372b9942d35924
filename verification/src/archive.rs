//! Archiving Done work: which tasks go, what stays behind, and the records
//! kept per day.

use vstd::prelude::*;

use crate::board::App;
use crate::filter::only_slot;
use crate::kanban::{done_time, deref_all};
use crate::task::{Status, Task, TaskView, clone_tasks, views};
use crate::text::{archive_prompt, archived_message, decimal};
use crate::tree::{find_last_index, last_index, lemma_last_index_upto};

verus! {

/// Whether task `id` and everything below it is Done; a child not in the
/// list counts as Done, and a task's children are read from the last entry
/// with its identifier. `fuel` bounds the depth.
pub open spec fn fully_done(ts: Seq<TaskView>, id: u128, fuel: nat) -> bool
    decreases fuel, 0int, 0int,
{
    if fuel == 0 {
        true
    } else if last_index(ts, id) < 0 {
        true
    } else {
        let t = ts[last_index(ts, id)];
        t.status == Status::Done && kids_done(ts, t.children, t.children.len() as int, (fuel - 1) as nat)
    }
}

/// Whether each of `kids[..k]` is fully Done.
pub open spec fn kids_done(ts: Seq<TaskView>, kids: Seq<u128>, k: int, fuel: nat) -> bool
    decreases fuel, 1int, k,
{
    if k <= 0 {
        true
    } else {
        kids_done(ts, kids, k - 1, fuel) && fully_done(ts, kids[k - 1], fuel)
    }
}

/// Whether task `id` and everything below it is Done.
fn fully_done_rec(tasks: &Vec<Task>, id: u128, fuel: usize) -> (r: bool)
    ensures
        r == fully_done(views(tasks@), id, fuel as nat),
    decreases fuel,
{
    if fuel == 0 {
        return true;
    }
    match find_last_index(tasks, id) {
        None => true,
        Some(i) => {
            let t = &tasks[i];
            proof {
                lemma_last_index_upto(views(tasks@), id, views(tasks@).len() - 1);
                assert(views(tasks@)[i as int] == t@);
            }
            if t.status != Status::Done {
                return false;
            }
            let ghost kids = t.children@;
            let mut k: usize = 0;
            while k < t.children.len()
                invariant
                    k <= kids.len(),
                    kids == t.children@,
                    fuel > 0,
                    i as int == last_index(views(tasks@), id),
                    0 <= i < tasks@.len(),
                    views(tasks@)[i as int] == t@,
                    t.status == Status::Done,
                    kids_done(views(tasks@), kids, k as int, (fuel - 1) as nat),
                decreases kids.len() - k,
            {
                if !fully_done_rec(tasks, t.children[k], fuel - 1) {
                    proof {
                        lemma_kids_done_prefix(views(tasks@), kids, k + 1, kids.len() as int, (fuel - 1) as nat);
                    }
                    return false;
                }
                k = k + 1;
            }
            true
        },
    }
}

/// A failing prefix fails the whole list.
proof fn lemma_kids_done_prefix(ts: Seq<TaskView>, kids: Seq<u128>, j: int, k: int, fuel: nat)
    requires
        0 <= j <= k,
        !kids_done(ts, kids, j, fuel),
    ensures
        !kids_done(ts, kids, k, fuel),
    decreases k - j,
{
    if k > j {
        lemma_kids_done_prefix(ts, kids, j, k - 1, fuel);
    }
}

/// The tasks of `ts[..k]` that satisfy `p`, in order.
pub open spec fn tasks_where(ts: Seq<TaskView>, p: spec_fn(TaskView) -> bool, k: int) -> Seq<TaskView>
    decreases k,
{
    if k <= 0 {
        Seq::empty()
    } else if p(ts[k - 1]) {
        tasks_where(ts, p, k - 1).push(ts[k - 1])
    } else {
        tasks_where(ts, p, k - 1)
    }
}

/// The identifiers of `s[..k]` not in `gone`, in order.
pub open spec fn ids_kept(s: Seq<u128>, gone: Set<u128>, k: int) -> Seq<u128>
    decreases k,
{
    if k <= 0 {
        Seq::empty()
    } else if gone.contains(s[k - 1]) {
        ids_kept(s, gone, k - 1)
    } else {
        ids_kept(s, gone, k - 1).push(s[k - 1])
    }
}

/// `t` once the tasks of `gone` are gone: they leave its children, and a
/// parent among them is dropped.
pub open spec fn without_gone(t: TaskView, gone: Set<u128>) -> TaskView {
    TaskView {
        children: ids_kept(t.children, gone, t.children.len() as int),
        parent_id: match t.parent_id {
            Some(p) => if gone.contains(p) {
                None
            } else {
                Some(p)
            },
            None => None,
        },
        ..t
    }
}

/// The tasks once those of `gone` are removed and unlinked.
pub open spec fn archived_away(ts: Seq<TaskView>, gone: Set<u128>) -> Seq<TaskView> {
    tasks_where(ts, |t: TaskView| !gone.contains(t.id), ts.len() as int).map_values(
        |t: TaskView| without_gone(t, gone),
    )
}

/// `ids` without those of `gone`, in order.
fn keep_ids(ids: &Vec<u128>, gone: &std::collections::HashSet<u128>) -> (r: Vec<u128>)
    ensures
        r@ == ids_kept(ids@, gone@, ids@.len() as int),
{
    let mut r: Vec<u128> = Vec::new();
    let mut k: usize = 0;
    while k < ids.len()
        invariant
            k <= ids@.len(),
            r@ == ids_kept(ids@, gone@, k as int),
        decreases ids@.len() - k,
    {
        if !gone.contains(&ids[k]) {
            r.push(ids[k]);
        }
        k = k + 1;
    }
    r
}

impl App {
    /// The name of the project the archive prompt speaks of: INBOX when only
    /// it is shown, else the first slot switched on, else "current project".
    pub open spec fn archive_label(&self) -> Seq<char> {
        match crate::projects::first_on(self.active_slots@, 0) {
            None => if self.show_unc {
                "INBOX"@
            } else {
                "current project"@
            },
            Some(s) => match self.projects@[s] {
                Some(p) => p@,
                None => "current project"@,
            },
        }
    }

    /// What `begin_archive_done` makes of `old`: the state `new`.
    pub open spec fn begin_archive_done_done(old: App, new: App) -> bool {
        &&& (new.status_message matches Some(m) && m@ == "Archive Done tasks in "@ + old.archive_label() + "? (Enter to confirm, Esc to cancel)"@)
        &&& ((new == (App {
            archive_done_confirm: true,
            status_message: new.status_message,
            ..old
        })))
    }

    /// Asks to confirm archiving the Done tasks of the project shown.
    pub fn begin_archive_done(&mut self)
        ensures
            App::begin_archive_done_done(*old(self), *final(self)),
    {
        let mut first: usize = 0;
        while first < 10 && !self.active_slots[first]
            invariant
                first <= 10,
                self.active_slots@.len() == 10,
                crate::projects::first_on(self.active_slots@, 0) == crate::projects::first_on(
                    self.active_slots@,
                    first as int,
                ),
            decreases 10 - first,
        {
            first = first + 1;
        }
        let label: String = if first == 10 {
            if self.show_unc {
                "INBOX".to_owned()
            } else {
                "current project".to_owned()
            }
        } else {
            match &self.projects[first] {
                Some(p) => p.clone(),
                None => "current project".to_owned(),
            }
        };
        self.archive_done_confirm = true;
        self.status_message = Some(archive_prompt(label.as_str()));
    }

    /// What `cancel_archive_done` makes of `old`: the state `new`.
    pub open spec fn cancel_archive_done_done(old: App, new: App) -> bool {
        &&& ((new == (App { archive_done_confirm: false, status_message: None, ..old })))
    }

    /// Closes the archive confirmation without archiving.
    pub fn cancel_archive_done(&mut self)
        ensures
            App::cancel_archive_done_done(*old(self), *final(self)),
    {
        self.archive_done_confirm = false;
        self.status_message = None;
    }

    /// Whether the shown task `t` can be archived: it and all below it are Done.
    pub open spec fn archivable(&self, t: TaskView) -> bool {
        self.shown(t) && fully_done(views(self.tasks@), t.id, self.tasks@.len() as nat)
    }

    /// Copies of the shown tasks that, with everything below them, are Done.
    pub fn collect_done_for_archive(&self) -> (r: Vec<Task>)
        ensures
            views(r@) == tasks_where(views(self.tasks@), |t: TaskView| self.archivable(t), self.tasks@.len() as int),
    {
        let ghost ts = views(self.tasks@);
        let ghost p = |t: TaskView| self.archivable(t);
        let mut r: Vec<Task> = Vec::new();
        let mut k: usize = 0;
        while k < self.tasks.len()
            invariant
                k <= ts.len(),
                ts == views(self.tasks@),
                p == (|t: TaskView| self.archivable(t)),
                views(r@) == tasks_where(ts, p, k as int),
            decreases ts.len() - k,
        {
            let t = &self.tasks[k];
            if self.task_visible(t) && fully_done_rec(&self.tasks, t.id, self.tasks.len()) {
                let c = t.duplicate();
                let ghost before = r@;
                r.push(c);
                proof {
                    assert(views(r@) =~= views(before).push(ts[k as int]));
                }
            }
            k = k + 1;
        }
        r
    }

    /// Removes the archived tasks `gone`: they leave the list, their parents'
    /// children, their children's parent links, the Doing order and the
    /// folds; the cursors are pulled back and the count reported. Nothing
    /// happens when `gone` is empty.
    pub fn remove_archived_tasks(&mut self, gone: &std::collections::HashSet<u128>)
        ensures
            gone@.len() == 0 ==> *final(self) == *old(self),
            gone@.len() > 0 ==> {
                &&& views(final(self).tasks@) == archived_away(views(old(self).tasks@), gone@)
                &&& final(self).doing_order@ == ids_kept(
                    old(self).doing_order@,
                    gone@,
                    old(self).doing_order@.len() as int,
                )
                &&& final(self).collapsed@ == old(self).collapsed@.difference(gone@)
                &&& final(self).cursor@ == App::clamped_all(App { cursor: old(self).cursor, ..*final(self) })
                &&& final(self).status_message matches Some(m) && m@ == "Archived "@ + decimal(
                    gone@.len(),
                ) + " task"@ + (if gone@.len() == 1 {
                    ""@
                } else {
                    "s"@
                })
                &&& (*final(self) == (App {
                    tasks: final(self).tasks,
                    doing_order: final(self).doing_order,
                    collapsed: final(self).collapsed,
                    cursor: final(self).cursor,
                    status_message: final(self).status_message,
                    ..*old(self)
                }))
            },
    {
        if gone.is_empty() {
            return;
        }
        let ghost ts = views(self.tasks@);
        let ghost keep = |t: TaskView| !gone@.contains(t.id);
        let mut kept: Vec<Task> = Vec::new();
        let mut k: usize = 0;
        while k < self.tasks.len()
            invariant
                k <= ts.len(),
                ts == views(self.tasks@),
                keep == (|t: TaskView| !gone@.contains(t.id)),
                views(kept@) == tasks_where(ts, keep, k as int).map_values(|t: TaskView| without_gone(t, gone@)),
            decreases ts.len() - k,
        {
            let t = &self.tasks[k];
            if !gone.contains(&t.id) {
                let children = keep_ids(&t.children, gone);
                let parent_id = match t.parent_id {
                    Some(p) => if gone.contains(&p) {
                        None
                    } else {
                        Some(p)
                    },
                    None => None,
                };
                let c = Task {
                    id: t.id,
                    title: t.title.clone(),
                    project: t.project.clone(),
                    status: t.status,
                    parent_id,
                    children,
                    created_at: t.created_at,
                    transitions: t.transitions.clone(),
                    flags: t.flags,
                };
                let ghost before = kept@;
                kept.push(c);
                proof {
                    assert(c@ == without_gone(ts[k as int], gone@));
                    assert(tasks_where(ts, keep, k + 1) == tasks_where(ts, keep, k as int).push(ts[k as int]));
                    assert(views(kept@) =~= views(before).push(c@));
                    assert(views(kept@) =~= tasks_where(ts, keep, k + 1).map_values(
                        |t: TaskView| without_gone(t, gone@),
                    ));
                }
            } else {
                proof {
                    assert(tasks_where(ts, keep, k + 1) == tasks_where(ts, keep, k as int));
                }
            }
            k = k + 1;
        }
        proof {
            assert(views(kept@) == archived_away(views(old(self).tasks@), gone@));
        }
        self.tasks = kept;
        let order = keep_ids(&self.doing_order, gone);
        self.doing_order = order;
        let ghost mut seen: Set<u128> = Set::empty();
        let ghost pre = *self;
        for x in it: gone.iter()
            invariant
                *self == (App { collapsed: self.collapsed, ..pre }),
                it.seq().unref().to_set() == gone@,
                forall|y: u128|
                    gone@.contains(y) ==> (seen.contains(y) || exists|j: int|
                        it.index() <= j < it.seq().len() && *#[trigger] it.seq()[j] == y),
                forall|y: u128| seen.contains(y) ==> gone@.contains(y),
                self.collapsed@ == old(self).collapsed@.difference(seen),
        {
            proof {
                assert(x == it.seq()[it.index() as int]);
                assert(it.seq().unref()[it.index() as int] == *x);
                assert(it.seq().unref().to_set().contains(*x));
            }
            self.collapsed.remove(x);
            proof {
                seen = seen.insert(*x);
                assert(self.collapsed@ =~= old(self).collapsed@.difference(seen));
            }
        }
        proof {
            assert(seen =~= gone@);
        }
        let ghost mid = *self;
        self.clamp_all_cursors();
        let n = gone.len();
        let suffix = if n == 1 {
            ""
        } else {
            "s"
        };
        self.status_message = Some(archived_message(n, suffix));
        proof {
            App::lemma_view_frame(&mid, &App { cursor: old(self).cursor, ..*self });
        }
    }
}

/// Milliseconds in a day.
pub const DAY_MS: i64 = 86_400_000;

/// The day (counted from the epoch, UTC) of an instant in milliseconds.
pub open spec fn day_of(ms: i64) -> int {
    ms as int / DAY_MS as int
}

/// The day (counted from the epoch, UTC) of an instant, as
/// `DateTime::date_naive` gives it.
pub fn day_number(ms: i64) -> (r: i64)
    ensures
        r == day_of(ms),
{
    if ms >= 0 {
        ms / DAY_MS
    } else {
        let x: i128 = -(ms as i128);
        let q: i128 = (x + (DAY_MS as i128) - 1) / (DAY_MS as i128);
        proof {
            let d = DAY_MS as int;
            let r = (x + d - 1) % d;
            vstd::arithmetic::div_mod::lemma_fundamental_div_mod(x + d - 1, d);
            assert(ms as int == (-q) * d + (d - 1 - r)) by (nonlinear_arith)
                requires
                    x + d - 1 == d * q + r,
                    x == -(ms as int),
            ;
            vstd::arithmetic::div_mod::lemma_fundamental_div_mod_converse_div(ms as int, d, -q, d - 1 - r);
        }
        (-q) as i64
    }
}

/// One task as the archive records it: `completed_at` is set for archived
/// tasks and left out for the active ancestors kept as context.
pub struct ArchiveTask {
    pub id: u128,
    pub title: String,
    pub parent_id: Option<u128>,
    pub created_at: i64,
    pub completed_at: Option<i64>,
}

/// The value of an archive record.
pub struct ArchiveTaskView {
    pub id: u128,
    pub title: Seq<char>,
    pub parent_id: Option<u128>,
    pub created_at: i64,
    pub completed_at: Option<i64>,
}

impl View for ArchiveTask {
    type V = ArchiveTaskView;

    open spec fn view(&self) -> ArchiveTaskView {
        ArchiveTaskView {
            id: self.id,
            title: self.title@,
            parent_id: self.parent_id,
            created_at: self.created_at,
            completed_at: self.completed_at,
        }
    }
}

/// The values of a list of archive records.
pub open spec fn entry_views(s: Seq<ArchiveTask>) -> Seq<ArchiveTaskView> {
    s.map_values(|a: ArchiveTask| a@)
}

/// The record of task `t`, completed at its last completion when `done`.
pub open spec fn record_of(t: TaskView, done: bool) -> ArchiveTaskView {
    ArchiveTaskView {
        id: t.id,
        title: t.title,
        parent_id: t.parent_id,
        created_at: t.created_at,
        completed_at: if done { Some(done_time(t)) } else { None },
    }
}

/// A copy of an archive record.
pub fn copy_entry(a: &ArchiveTask) -> (r: ArchiveTask)
    ensures
        r@ == a@,
{
    ArchiveTask {
        id: a.id,
        title: a.title.clone(),
        parent_id: a.parent_id,
        created_at: a.created_at,
        completed_at: a.completed_at,
    }
}

/// The records of an archive run: the archived tasks, completed at their
/// last completion, then their active ancestors without completion.
pub fn archive_entries(hidden: &Vec<Task>, ancestors: &Vec<Task>) -> (r: Vec<ArchiveTask>)
    ensures
        entry_views(r@) == views(hidden@).map_values(|t: TaskView| record_of(t, true)) + views(
            ancestors@,
        ).map_values(|t: TaskView| record_of(t, false)),
{
    let mut r: Vec<ArchiveTask> = Vec::new();
    let mut k: usize = 0;
    while k < hidden.len()
        invariant
            k <= hidden@.len(),
            entry_views(r@) == views(hidden@).take(k as int).map_values(|t: TaskView| record_of(t, true)),
        decreases hidden@.len() - k,
    {
        let t = &hidden[k];
        let done = crate::kanban::completion_time(t);
        let ghost before = entry_views(r@);
        r.push(
            ArchiveTask {
                id: t.id,
                title: t.title.clone(),
                parent_id: t.parent_id,
                created_at: t.created_at,
                completed_at: Some(done),
            },
        );
        proof {
            let f = |t: TaskView| record_of(t, true);
            assert(views(hidden@)[k as int] == hidden@[k as int]@);
            assert(entry_views(r@) =~= before.push(f(views(hidden@)[k as int])));
            assert(views(hidden@).take(k + 1).map_values(f) =~= views(hidden@).take(k as int).map_values(f).push(
                f(views(hidden@)[k as int]),
            ));
        }
        k = k + 1;
    }
    let ghost first = entry_views(r@);
    proof {
        assert(views(hidden@).take(k as int) =~= views(hidden@));
    }
    let mut j: usize = 0;
    while j < ancestors.len()
        invariant
            j <= ancestors@.len(),
            first == views(hidden@).map_values(|t: TaskView| record_of(t, true)),
            entry_views(r@) == first + views(ancestors@).take(j as int).map_values(
                |t: TaskView| record_of(t, false),
            ),
        decreases ancestors@.len() - j,
    {
        let t = &ancestors[j];
        let ghost before = entry_views(r@);
        r.push(
            ArchiveTask {
                id: t.id,
                title: t.title.clone(),
                parent_id: t.parent_id,
                created_at: t.created_at,
                completed_at: None,
            },
        );
        proof {
            let f = |t: TaskView| record_of(t, false);
            assert(views(ancestors@)[j as int] == ancestors@[j as int]@);
            assert(entry_views(r@) =~= before.push(f(views(ancestors@)[j as int])));
            assert(views(ancestors@).take(j + 1).map_values(f) =~= views(ancestors@).take(j as int).map_values(
                f,
            ).push(f(views(ancestors@)[j as int])));
            assert(first + views(ancestors@).take(j + 1).map_values(f) =~= (first + views(ancestors@).take(
                j as int,
            ).map_values(f)).push(f(views(ancestors@)[j as int])));
        }
        j = j + 1;
    }
    proof {
        assert(views(ancestors@).take(j as int) =~= views(ancestors@));
    }
    r
}

/// `days` with `d` added at the end unless already there.
pub open spec fn add_day(days: Seq<i64>, d: i64) -> Seq<i64> {
    if days.contains(d) {
        days
    } else {
        days.push(d)
    }
}

/// The days on which the first `k` archived tasks were created or
/// completed, each once, in the order first met.
pub open spec fn event_days_of(ts: Seq<TaskView>, k: int) -> Seq<i64>
    decreases k,
{
    if k <= 0 {
        Seq::empty()
    } else {
        let prev = event_days_of(ts, k - 1);
        add_day(add_day(prev, day_of(ts[k - 1].created_at) as i64), day_of(done_time(ts[k - 1])) as i64)
    }
}

/// Adds `d` to `days` unless already there.
fn push_day(days: &mut Vec<i64>, d: i64)
    ensures
        final(days)@ == add_day(old(days)@, d),
{
    let mut i: usize = 0;
    while i < days.len()
        invariant
            i <= days@.len(),
            days@ == old(days)@,
            forall|j: int| 0 <= j < i ==> days@[j] != d,
        decreases days@.len() - i,
    {
        if days[i] == d {
            return;
        }
        i = i + 1;
    }
    days.push(d);
}

/// The days on which the archived tasks were created or completed, each once.
pub fn event_days(hidden: &Vec<Task>) -> (r: Vec<i64>)
    ensures
        r@ == event_days_of(views(hidden@), hidden@.len() as int),
{
    let mut days: Vec<i64> = Vec::new();
    let mut k: usize = 0;
    while k < hidden.len()
        invariant
            k <= hidden@.len(),
            days@ == event_days_of(views(hidden@), k as int),
        decreases hidden@.len() - k,
    {
        let t = &hidden[k];
        push_day(&mut days, day_number(t.created_at));
        let done = crate::kanban::completion_time(t);
        push_day(&mut days, day_number(done));
        k = k + 1;
    }
    days
}

/// Whether a record counts on day `day`: created by then, and not completed
/// before it.
pub open spec fn alive_on(a: ArchiveTaskView, day: i64) -> bool {
    day_of(a.created_at) <= day && match a.completed_at {
        Some(c) => day <= day_of(c),
        None => true,
    }
}

/// The day's list once the records of `entries[..k]` alive that day and not
/// yet listed are added.
pub open spec fn merged(day_list: Seq<ArchiveTaskView>, entries: Seq<ArchiveTaskView>, day: i64, k: int) -> Seq<
    ArchiveTaskView,
>
    decreases k,
{
    if k <= 0 {
        day_list
    } else {
        let prev = merged(day_list, entries, day, k - 1);
        let a = entries[k - 1];
        if alive_on(a, day) && !(exists|j: int| 0 <= j < prev.len() && prev[j].id == a.id) {
            prev.push(a)
        } else {
            prev
        }
    }
}

/// Adds to the records of day `day` those of `entries` alive that day and
/// not yet listed.
pub fn merge_alive(day_list: &mut Vec<ArchiveTask>, entries: &Vec<ArchiveTask>, day: i64)
    ensures
        entry_views(final(day_list)@) == merged(entry_views(old(day_list)@), entry_views(entries@), day, entries@.len() as int),
{
    let mut k: usize = 0;
    while k < entries.len()
        invariant
            k <= entries@.len(),
            entry_views(day_list@) == merged(entry_views(old(day_list)@), entry_views(entries@), day, k as int),
        decreases entries@.len() - k,
    {
        let a = &entries[k];
        let born = day_number(a.created_at);
        let alive = born <= day && match a.completed_at {
            Some(c) => day <= day_number(c),
            None => true,
        };
        if alive {
            let mut listed = false;
            let mut i: usize = 0;
            while i < day_list.len()
                invariant
                    i <= day_list@.len(),
                    listed == (exists|j: int| 0 <= j < i && entry_views(day_list@)[j].id == a.id),
                decreases day_list@.len() - i,
            {
                proof {
                    assert(entry_views(day_list@)[i as int] == day_list@[i as int]@);
                }
                if day_list[i].id == a.id {
                    listed = true;
                }
                i = i + 1;
            }
            if !listed {
                let c = copy_entry(a);
                let ghost before = entry_views(day_list@);
                day_list.push(c);
                proof {
                    assert(entry_views(day_list@) =~= before.push(a@));
                }
            }
        }
        k = k + 1;
    }
}

} // verus!
