//! Properties of the orderings of the board's Todo column and of the list of
//! Done tasks.

use vstd::prelude::*;

use crate::board::{App, KanbanSort};
use crate::kanban::{min_age, permute, todo_key, todo_pick};
use crate::task::TaskView;
use crate::display::{completion, span_secs};
use crate::done::{DoneApp, sort_keys};
use crate::archive::tasks_where;
use crate::sorting::{is_stable_order, key_before, lemma_stable_order_exists};

verus! {

proof fn lemma_min_age_bounds(s: Seq<TaskView>, proj: Seq<char>, k: int)
    requires
        0 <= k <= s.len(),
    ensures
        min_age(s, proj, k) matches Some(m) ==> {
            &&& forall|j: int| 0 <= j < k && (#[trigger] s[j]).project == proj ==> m <= s[j].created_at as u64
            &&& exists|j: int| 0 <= j < k && (#[trigger] s[j]).project == proj && m == s[j].created_at as u64
        },
        min_age(s, proj, k) is None ==> forall|j: int| 0 <= j < k ==> (#[trigger] s[j]).project != proj,
    decreases k,
{
    if k > 0 {
        lemma_min_age_bounds(s, proj, k - 1);
        if s[k - 1].project == proj {
            let a = s[k - 1].created_at as u64;
            match min_age(s, proj, k - 1) {
                Some(m) => {
                    if a < m {
                        assert(s[k - 1].project == proj && a == s[k - 1].created_at as u64);
                    } else {
                        let j = choose|j: int| 0 <= j < k - 1 && (#[trigger] s[j]).project == proj && m == s[j].created_at as u64;
                        assert(s[j].project == proj);
                    }
                },
                None => {
                    assert(s[k - 1].project == proj);
                },
            }
        }
    }
}

/// Under the age sort, a project's key in the Todo column is the age of its
/// oldest task: the key of candidate `c[i]` is no later than the creation
/// time of any candidate of the same project, and is that of one of them.
pub proof fn lemma_age_key_is_oldest(app: App, c: Seq<TaskView>, i: int)
    requires
        app.kanban_sort == KanbanSort::Age,
        0 <= i < c.len(),
    ensures
        forall|j: int| 0 <= j < c.len() && (#[trigger] c[j]).project == c[i].project ==> app.project_key(c, c[i])
            <= c[j].created_at as u64,
        exists|j: int|
            0 <= j < c.len() && (#[trigger] c[j]).project == c[i].project && app.project_key(c, c[i])
                == c[j].created_at as u64,
{
    lemma_min_age_bounds(c, c[i].project, c.len() as int);
    assert(c[i].project == c[i].project);
}

/// Under the age sort, the project whose oldest task is older comes first in
/// the Todo column: when some candidate of `c[i]`'s project was created
/// before every candidate of `c[j]`'s project, `c[i]` sorts before `c[j]`.
pub proof fn lemma_older_project_first(app: App, c: Seq<TaskView>, i: int, j: int, x: int)
    requires
        app.kanban_sort == KanbanSort::Age,
        0 <= i < c.len(),
        0 <= j < c.len(),
        0 <= x < c.len(),
        c[x].project == c[i].project,
        forall|y: int| 0 <= y < c.len() && (#[trigger] c[y]).project == c[j].project ==> (c[x].created_at as u64)
            < (c[y].created_at as u64),
    ensures
        app.todo_keys(c)[i] < app.todo_keys(c)[j],
{
    lemma_age_key_is_oldest(app, c, i);
    lemma_age_key_is_oldest(app, c, j);
    let pi = app.project_key(c, c[i]);
    let pj = app.project_key(c, c[j]);
    let y = choose|y: int| 0 <= y < c.len() && (#[trigger] c[y]).project == c[j].project && pj == c[y].created_at as u64;
    assert(pi <= c[x].created_at as u64);
    assert(pi < pj);
    let ti = (app.tree_key(c[i]) as u64) as int;
    let tj = (app.tree_key(c[j]) as u64) as int;
    assert((pi as int) * 18446744073709551616int + ti < (pj as int) * 18446744073709551616int + tj) by (nonlinear_arith)
        requires
            (pi as int) < (pj as int),
            0 <= ti < 18446744073709551616int,
            0 <= tj,
    ;
    assert((pj as int) * 18446744073709551616int + tj < 340282366920938463463374607431768211456int) by (nonlinear_arith)
        requires
            0 <= (pj as int) < 18446744073709551616int,
            0 <= tj < 18446744073709551616int,
    ;
    assert(0 <= (pi as int) * 18446744073709551616int + ti) by (nonlinear_arith)
        requires
            0 <= (pi as int),
            0 <= ti,
    ;
    assert(app.todo_keys(c)[i] == todo_key(pi, app.tree_key(c[i])));
    assert(app.todo_keys(c)[j] == todo_key(pj, app.tree_key(c[j])));
}


/// How long a task took from creation to its last completion, in whole
/// seconds and never below zero; nothing for a task never completed.
pub open spec fn time_taken(t: TaskView) -> Option<int> {
    match completion(t) {
        Some(end) => Some(if span_secs(t.created_at, end) > 0 { span_secs(t.created_at, end) } else { 0 }),
        None => None,
    }
}

proof fn lemma_tasks_where_len(ts: Seq<TaskView>, p: spec_fn(TaskView) -> bool, k: int)
    requires
        0 <= k <= ts.len(),
    ensures
        tasks_where(ts, p, k).len() <= k,
    decreases k,
{
    if k > 0 {
        lemma_tasks_where_len(ts, p, k - 1);
    }
}

/// Sorted by time taken, the list of Done tasks puts the longest first: for
/// entries `i` before `j`, if `j` was completed then so was `i`, and `i`
/// took at least as long (tasks never completed come last).
pub proof fn lemma_duration_longest_first(d: DoneApp, i: int, j: int)
    requires
        d.sort_by == crate::done::SortBy::Duration,
        0 <= i < j < d.done_list().len(),
    ensures
        time_taken(d.done_list()[j]) is Some ==> {
            &&& time_taken(d.done_list()[i]) is Some
            &&& time_taken(d.done_list()[i])->0 >= time_taken(d.done_list()[j])->0
        },
{
    let s = d.shown_tasks();
    let keys = sort_keys(s, d.sort_by);
    assert(d.tasks@.len() == d.tasks.len());
    lemma_tasks_where_len(crate::task::views(d.tasks@), |t: TaskView| d.shows(t), d.tasks@.len() as int);
    lemma_stable_order_exists(keys);
    let p = choose|p: Seq<usize>| is_stable_order(keys, p);
    let r = d.done_list();
    assert(r == Seq::new(p.len(), |k: int| s[p[k] as int]));
    assert(key_before(keys, p[i] as int, p[j] as int));
    let a = s[p[i] as int];
    let b = s[p[j] as int];
    assert(r[i] == a && r[j] == b);
    if time_taken(b) is Some {
        let eb = completion(b)->0;
        assert(-9223372036854775808 <= span_secs(b.created_at, eb) <= 9223372036854775807);
        if let Some(ea) = completion(a) {
            assert(-9223372036854775808 <= span_secs(a.created_at, ea) <= 9223372036854775807);
        }
    }
}


/// Sorted by date, the list of Done tasks puts the most recently completed
/// first: for entries `i` before `j`, if `j` was completed then so was `i`,
/// and no earlier than `j` (tasks never completed come last).
pub proof fn lemma_date_newest_first(d: DoneApp, i: int, j: int)
    requires
        d.sort_by == crate::done::SortBy::Date,
        0 <= i < j < d.done_list().len(),
    ensures
        completion(d.done_list()[j]) is Some ==> {
            &&& completion(d.done_list()[i]) is Some
            &&& completion(d.done_list()[i])->0 >= completion(d.done_list()[j])->0
        },
{
    let s = d.shown_tasks();
    let keys = sort_keys(s, d.sort_by);
    assert(d.tasks@.len() == d.tasks.len());
    lemma_tasks_where_len(crate::task::views(d.tasks@), |t: TaskView| d.shows(t), d.tasks@.len() as int);
    lemma_stable_order_exists(keys);
    let p = choose|p: Seq<usize>| is_stable_order(keys, p);
    let r = d.done_list();
    assert(r == Seq::new(p.len(), |k: int| s[p[k] as int]));
    assert(key_before(keys, p[i] as int, p[j] as int));
    assert(r[i] == s[p[i] as int] && r[j] == s[p[j] as int]);
}


/// The projects already represented after deciding on `s[k]` while picking
/// the Todo tasks.
spec fn seen_after(s: Seq<TaskView>, k: int, seen: Seq<Seq<char>>, ts: Seq<TaskView>, forced: Option<u128>) -> Seq<
    Seq<char>,
> {
    if forced == Some(s[k].id) {
        seen
    } else if !crate::kanban::has_doing_leaf(ts, s[k].project) && !seen.contains(s[k].project) {
        seen.push(s[k].project)
    } else {
        seen
    }
}

/// Whether `s[k]` is kept when picking the Todo tasks.
spec fn taken(s: Seq<TaskView>, k: int, seen: Seq<Seq<char>>, ts: Seq<TaskView>, forced: Option<u128>) -> bool {
    forced == Some(s[k].id) || (!crate::kanban::has_doing_leaf(ts, s[k].project) && !seen.contains(s[k].project))
}

proof fn lemma_todo_pick_one(
    s: Seq<TaskView>,
    k: int,
    seen: Seq<Seq<char>>,
    ts: Seq<TaskView>,
    forced: Option<u128>,
    i: int,
) -> (a: int)
    requires
        0 <= k,
        0 <= i < todo_pick(s, k, seen, ts, forced).len(),
    ensures
        k <= a < s.len(),
        todo_pick(s, k, seen, ts, forced)[i] == s[a],
    decreases s.len() - k,
{
    let next = seen_after(s, k, seen, ts, forced);
    let rest = todo_pick(s, k + 1, next, ts, forced);
    if taken(s, k, seen, ts, forced) {
        assert(todo_pick(s, k, seen, ts, forced) == seq![s[k]] + rest);
        if i == 0 {
            k
        } else {
            lemma_todo_pick_one(s, k + 1, next, ts, forced, i - 1)
        }
    } else {
        lemma_todo_pick_one(s, k + 1, next, ts, forced, i)
    }
}

proof fn lemma_todo_pick_pair(
    s: Seq<TaskView>,
    k: int,
    seen: Seq<Seq<char>>,
    ts: Seq<TaskView>,
    forced: Option<u128>,
    i: int,
    j: int,
) -> (ab: (int, int))
    requires
        0 <= k,
        0 <= i < j < todo_pick(s, k, seen, ts, forced).len(),
    ensures
        k <= ab.0 < ab.1 < s.len(),
        todo_pick(s, k, seen, ts, forced)[i] == s[ab.0],
        todo_pick(s, k, seen, ts, forced)[j] == s[ab.1],
    decreases s.len() - k,
{
    let next = seen_after(s, k, seen, ts, forced);
    let rest = todo_pick(s, k + 1, next, ts, forced);
    if taken(s, k, seen, ts, forced) {
        assert(todo_pick(s, k, seen, ts, forced) == seq![s[k]] + rest);
        if i == 0 {
            let b = lemma_todo_pick_one(s, k + 1, next, ts, forced, j - 1);
            (k, b)
        } else {
            lemma_todo_pick_pair(s, k + 1, next, ts, forced, i - 1, j - 1)
        }
    } else {
        lemma_todo_pick_pair(s, k + 1, next, ts, forced, i, j)
    }
}

/// Under the age sort, the Todo column lists the project whose oldest task
/// is older first: for entries `i` before `j` of the column `r`, it is not
/// the case that some candidate of `r[j]`'s project was created before every
/// candidate of `r[i]`'s project.
pub proof fn lemma_todo_oldest_project_first(app: App, r: Seq<TaskView>, i: int, j: int, x: int)
    requires
        app.kanban_sort == KanbanSort::Age,
        app.board_spec(crate::board::Column::Todo, r),
        0 <= i < j < r.len(),
        0 <= x < app.board_candidates(crate::board::Column::Todo).len(),
        app.board_candidates(crate::board::Column::Todo)[x].project == r[j].project,
    ensures
        !(forall|y: int|
            0 <= y < app.board_candidates(crate::board::Column::Todo).len()
                && (#[trigger] app.board_candidates(crate::board::Column::Todo)[y]).project == r[i].project
                ==> (app.board_candidates(crate::board::Column::Todo)[x].created_at as u64) < (
            app.board_candidates(crate::board::Column::Todo)[y].created_at as u64)),
{
    let c = app.board_candidates(crate::board::Column::Todo);
    let keys = app.todo_keys(c);
    let p = choose|p: Seq<usize>|
        #[trigger] is_stable_order(keys, p) && r == todo_pick(
            permute(c, p),
            0,
            app.forced_seen(),
            crate::task::views(app.tasks@),
            app.forced_todo_task_id,
        );
    let s = permute(c, p);
    let (a, b) = lemma_todo_pick_pair(s, 0, app.forced_seen(), crate::task::views(app.tasks@), app.forced_todo_task_id, i, j);
    assert(key_before(keys, p[a] as int, p[b] as int));
    assert(r[i] == c[p[a] as int] && r[j] == c[p[b] as int]);
    if forall|y: int|
        0 <= y < c.len() && (#[trigger] c[y]).project == r[i].project ==> (c[x].created_at as u64) < (
        c[y].created_at as u64) {
        lemma_older_project_first(app, c, p[b] as int, p[a] as int, x);
    }
}

} // verus!
