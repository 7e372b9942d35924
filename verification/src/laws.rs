//! Properties that hold across the operations of the library.

use vstd::prelude::*;

use crate::board::{App, Column};
use crate::filter::only_slot;
use crate::projects::{first_on, item_pos, named_items};
use crate::edit::with_children;
use crate::kanban::{lemma_pos_from, pos_from, present_in};
use crate::planning::{append_missing, retained, swap_ids};
use crate::visual::{greatest, least, moved, positions_in, run_of, share_parent, shift_down_in, shift_up_in, sibling_ids};
use crate::tree::lemma_first_index;
use crate::edit::{stack_views, undo_pushed, update_first};
use crate::flags::flipped;
use crate::kanban::{done_key, done_keys, done_time, leaf_in, leaves_upto, permute, todo_pick};
use crate::review::{accepted_count, count_rating, rating_step, ratings_after};
use crate::sorting::is_stable_order;
use crate::task::TaskView;
use crate::status::{any_child_with, derived_status, propagate, propagate_up};
use crate::task::{Status, transitioned};
use crate::tree::{first_index, index_from, lookup, parent_of};

verus! {

/// Undo after a change gives back the tasks as they were before the change:
/// when `saved` is `before` with its tasks pushed on the undo stack, and the
/// change that led to `changed` left that stack alone, undoing in `changed`
/// restores the tasks of `before`.
pub proof fn lemma_undo_restores(before: App, saved: App, changed: App, after: App)
    requires
        App::undo_saved(before, saved),
        stack_views(changed.undo_stack@) == stack_views(saved.undo_stack@),
        App::undone(changed, after),
    ensures
        crate::task::views(after.tasks@) == crate::task::views(before.tasks@),
{
    let pushed = stack_views(before.undo_stack@).push(crate::task::views(before.tasks@));
    assert(changed.undo_stack@.len() == stack_views(changed.undo_stack@).len());
    assert(stack_views(saved.undo_stack@).last() == crate::task::views(before.tasks@)) by {
        if pushed.len() > 50 {
            assert(pushed.drop_first().last() == pushed.last());
        }
    }
    assert(changed.undo_stack@.len() > 0);
}

/// Redo right after an undo gives back the tasks the undo replaced.
pub proof fn lemma_redo_restores(before: App, undone: App, after: App)
    requires
        before.undo_stack@.len() > 0,
        App::undone(before, undone),
        App::redone(undone, after),
    ensures
        crate::task::views(after.tasks@) == crate::task::views(before.tasks@),
{
    assert(undone.redo_stack@.len() == stack_views(undone.redo_stack@).len());
}

/// Flipping the same flag twice leaves a task as it was.
pub proof fn lemma_flip_twice(t: TaskView, f: usize)
    requires
        f < 8,
    ensures
        flipped(flipped(t, f), f) == t,
{
    let m = (1u8 << f) as u8;
    let x = t.flags;
    assert((x ^ m) ^ m == x) by (bit_vector);
}

/// Replacing an entry by one with the same identifier leaves every search
/// by identifier from `i` unchanged.
proof fn lemma_index_from_update(ts: Seq<TaskView>, k: int, t: TaskView, id: u128, i: int)
    requires
        0 <= k < ts.len(),
        t.id == ts[k].id,
        0 <= i,
    ensures
        index_from(ts.update(k, t), id, i) == index_from(ts, id, i),
    decreases ts.len() - i,
{
    if i < ts.len() {
        lemma_index_from_update(ts, k, t, id, i + 1);
    }
}

/// Flagging the same task twice with the same flag gives back the tasks.
pub proof fn lemma_flag_task_twice(ts: Seq<TaskView>, id: u128, f: usize)
    requires
        f < 8,
    ensures
        update_first(
            update_first(ts, id, |t: TaskView| flipped(t, f)),
            id,
            |t: TaskView| flipped(t, f),
        ) == ts,
{
    let i = first_index(ts, id);
    crate::tree::lemma_first_index(ts, id);
    if 0 <= i < ts.len() {
        let once = ts.update(i, flipped(ts[i], f));
        lemma_index_from_update(ts, i, flipped(ts[i], f), id, 0);
        assert(first_index(once, id) == i);
        lemma_flip_twice(ts[i], f);
        assert(once.update(i, flipped(once[i], f)) =~= ts);
    }
}

/// Every entry of the leaves of `ts` among `s[..k]` is a leaf.
proof fn lemma_leaves_upto(ts: Seq<TaskView>, s: Seq<TaskView>, k: int)
    requires
        0 <= k <= s.len(),
    ensures
        forall|i: int| 0 <= i < leaves_upto(ts, s, k).len() ==> leaf_in(ts, #[trigger] leaves_upto(ts, s, k)[i]),
    decreases k,
{
    if k > 0 {
        lemma_leaves_upto(ts, s, k - 1);
        let prev = leaves_upto(ts, s, k - 1);
        let cur = leaves_upto(ts, s, k);
        assert forall|i: int| 0 <= i < cur.len() implies leaf_in(ts, #[trigger] cur[i]) by {
            if i < prev.len() {
                assert(cur[i] == prev[i]);
            }
        }
    }
}

/// The picked Todo tasks all come from the list they are picked from.
proof fn lemma_todo_pick_from(
    s: Seq<TaskView>,
    k: int,
    seen: Seq<Seq<char>>,
    ts: Seq<TaskView>,
    forced: Option<u128>,
)
    requires
        0 <= k,
    ensures
        forall|i: int|
            #![trigger todo_pick(s, k, seen, ts, forced)[i]]
            0 <= i < todo_pick(s, k, seen, ts, forced).len() ==> exists|j: int|
                0 <= j < s.len() && todo_pick(s, k, seen, ts, forced)[i] == #[trigger] s[j],
    decreases s.len() - k,
{
    if k < s.len() {
        lemma_todo_pick_from(s, k + 1, seen, ts, forced);
        lemma_todo_pick_from(s, k + 1, seen.push(s[k].project), ts, forced);
        let r = todo_pick(s, k, seen, ts, forced);
        assert forall|i: int| #![trigger r[i]] 0 <= i < r.len() implies exists|j: int| 0 <= j < s.len() && r[i] == #[trigger] s[j] by {
            if forced == Some(s[k].id) || (!crate::kanban::has_doing_leaf(ts, s[k].project) && !seen.contains(s[k].project)) {
                if i == 0 {
                    assert(r[i] == s[k]);
                } else {
                    let rest = if forced == Some(s[k].id) {
                        todo_pick(s, k + 1, seen, ts, forced)
                    } else {
                        todo_pick(s, k + 1, seen.push(s[k].project), ts, forced)
                    };
                    assert(r[i] == rest[i - 1]);
                    let j = choose|j: int| 0 <= j < s.len() && rest[i - 1] == s[j];
                    assert(r[i] == s[j]);
                }
            } else {
                let rest = todo_pick(s, k + 1, seen, ts, forced);
                assert(r[i] == rest[i]);
                let j = choose|j: int| 0 <= j < s.len() && rest[i] == s[j];
                assert(r[i] == s[j]);
            }
        }
    }
}

/// Every column of the board lists only leaf tasks: none of their children
/// is Todo or Doing.
pub proof fn lemma_board_shows_leaves(app: App, col: Column, r: Seq<TaskView>)
    requires
        app.board_spec(col, r),
    ensures
        forall|i: int| 0 <= i < r.len() ==> leaf_in(crate::task::views(app.tasks@), #[trigger] r[i]),
{
    let c = app.board_candidates(col);
    let s = crate::board::tasks_of(crate::task::views(app.tasks@), app.column_order(col));
    lemma_leaves_upto(crate::task::views(app.tasks@), s, s.len() as int);
    assert(forall|i: int| 0 <= i < c.len() ==> leaf_in(crate::task::views(app.tasks@), #[trigger] c[i]));
    match col {
        Column::Done => {
            let p = choose|p: Seq<usize>| #[trigger] is_stable_order(done_keys(c), p) && r == permute(c, p);
            assert forall|i: int| 0 <= i < r.len() implies leaf_in(crate::task::views(app.tasks@), #[trigger] r[i]) by {
                assert(r[i] == c[p[i] as int]);
            }
        },
        Column::Doing => {
            let p1 = choose|p1: Seq<usize>|
                #[trigger] is_stable_order(app.tree_keys(c), p1) && app.doing_result(permute(c, p1), r);
            let s1 = permute(c, p1);
            assert(forall|i: int| 0 <= i < s1.len() ==> leaf_in(crate::task::views(app.tasks@), #[trigger] s1[i])) by {
                assert forall|i: int| 0 <= i < s1.len() implies leaf_in(crate::task::views(app.tasks@), #[trigger] s1[i]) by {
                    assert(s1[i] == c[p1[i] as int]);
                }
            }
            if app.doing_order@.len() != 0 {
                let ordered = crate::kanban::present_in(app.doing_order@, s1, app.doing_order@.len() as int);
                let p2 = choose|p2: Seq<usize>|
                    #[trigger] is_stable_order(app.doing_keys(s1, ordered), p2) && r == permute(s1, p2);
                assert forall|i: int| 0 <= i < r.len() implies leaf_in(crate::task::views(app.tasks@), #[trigger] r[i]) by {
                    assert(r[i] == s1[p2[i] as int]);
                }
            }
        },
        Column::Todo => {
            let p = choose|p: Seq<usize>|
                #[trigger] is_stable_order(app.todo_keys(c), p) && r == todo_pick(
                    permute(c, p),
                    0,
                    app.forced_seen(),
                    crate::task::views(app.tasks@),
                    app.forced_todo_task_id,
                );
            let s1 = permute(c, p);
            lemma_todo_pick_from(s1, 0, app.forced_seen(), crate::task::views(app.tasks@), app.forced_todo_task_id);
            assert forall|i: int| 0 <= i < r.len() implies leaf_in(crate::task::views(app.tasks@), #[trigger] r[i]) by {
                let j = choose|j: int| 0 <= j < s1.len() && r[i] == s1[j];
                assert(s1[j] == c[p[j] as int]);
            }
        },
    }
}

/// The Done column lists the most recently completed task first.
pub proof fn lemma_done_newest_first(app: App, r: Seq<TaskView>)
    requires
        app.board_spec(Column::Done, r),
    ensures
        forall|i: int, j: int| 0 <= i < j < r.len() ==> done_time(#[trigger] r[i]) >= done_time(#[trigger] r[j]),
{
    let c = app.board_candidates(Column::Done);
    let p = choose|p: Seq<usize>| #[trigger] is_stable_order(done_keys(c), p) && r == permute(c, p);
    assert forall|i: int, j: int| 0 <= i < j < r.len() implies done_time(#[trigger] r[i]) >= done_time(#[trigger] r[j]) by {
        let keys = done_keys(c);
        assert(crate::sorting::key_before(keys, p[i] as int, p[j] as int));
        assert(r[i] == c[p[i] as int] && r[j] == c[p[j] as int]);
        assert(keys[p[i] as int] == done_key(r[i]));
        assert(keys[p[j] as int] == done_key(r[j]));
    }
}

/// Counting each rating from one to four accounts for every review, when
/// every rating is one of them.
pub proof fn lemma_summary_total(ratings: Seq<u8>, k: int)
    requires
        0 <= k <= ratings.len(),
        forall|i: int| 0 <= i < ratings.len() ==> 1 <= #[trigger] ratings[i] <= 4,
    ensures
        count_rating(ratings, 1, k) + count_rating(ratings, 2, k) + count_rating(ratings, 3, k)
            + count_rating(ratings, 4, k) == k,
    decreases k,
{
    if k > 0 {
        lemma_summary_total(ratings, k - 1);
        assert(1 <= ratings[k - 1] <= 4);
    }
}

proof fn lemma_ratings_after(n: nat, held: Seq<u8>, tries: Seq<u8>)
    requires
        held.len() <= n,
        forall|i: int| 0 <= i < held.len() ==> 1 <= #[trigger] held[i] <= 4,
    ensures
        ratings_after(n, held, tries).len() == held.len() + accepted_count(n, held.len(), tries),
        forall|i: int|
            0 <= i < ratings_after(n, held, tries).len() ==> 1 <= #[trigger] ratings_after(n, held, tries)[i] <= 4,
    decreases tries.len(),
{
    if tries.len() > 0 {
        let next = rating_step(n, held, tries[0]);
        assert forall|i: int| 0 <= i < next.len() implies 1 <= #[trigger] next[i] <= 4 by {
            if i < held.len() {
                assert(next[i] == held[i]);
            }
        }
        lemma_ratings_after(n, next, tries.drop_first());
    }
}

/// A session's summary accounts for every rating it accepted: starting from a
/// new session of `n` due cards and submitting each of `tries` in turn, the
/// ratings held number as many as the submissions that succeeded, and the
/// tallies of the four ratings add up to that number.
pub proof fn lemma_session_totals(n: nat, tries: Seq<u8>)
    ensures
        ({
            let held = ratings_after(n, Seq::empty(), tries);
            &&& held.len() == accepted_count(n, 0, tries)
            &&& count_rating(held, 1, held.len() as int) + count_rating(held, 2, held.len() as int)
                + count_rating(held, 3, held.len() as int) + count_rating(held, 4, held.len() as int)
                == held.len()
        }),
{
    lemma_ratings_after(n, Seq::empty(), tries);
    let held = ratings_after(n, Seq::empty(), tries);
    lemma_summary_total(held, held.len() as int);
}

/// Two task lists with the same identifiers and parent links, entry by entry.
pub open spec fn same_links(a: Seq<TaskView>, b: Seq<TaskView>) -> bool {
    &&& a.len() == b.len()
    &&& forall|j: int| 0 <= j < a.len() ==> (#[trigger] a[j]).id == b[j].id && a[j].parent_id == b[j].parent_id
}

/// The identifiers met walking up the parent links from `cur`, at most `fuel`
/// of them, up to the first one that is missing.
pub open spec fn climbs(ts: Seq<TaskView>, cur: Option<u128>, fuel: nat) -> Seq<u128>
    decreases fuel,
{
    if fuel == 0 {
        Seq::empty()
    } else {
        match cur {
            None => Seq::empty(),
            Some(pid) => {
                let i = first_index(ts, pid);
                if i < 0 || i >= ts.len() {
                    Seq::empty()
                } else {
                    seq![pid] + climbs(ts, ts[i].parent_id, (fuel - 1) as nat)
                }
            },
        }
    }
}

/// Two task lists with the same identifiers, entry by entry.
pub open spec fn same_ids(a: Seq<TaskView>, b: Seq<TaskView>) -> bool {
    &&& a.len() == b.len()
    &&& forall|j: int| 0 <= j < a.len() ==> (#[trigger] a[j]).id == b[j].id
}

proof fn lemma_index_from_same_ids(a: Seq<TaskView>, b: Seq<TaskView>, id: u128, i: int)
    requires
        same_ids(a, b),
        0 <= i,
    ensures
        index_from(a, id, i) == index_from(b, id, i),
    decreases a.len() - i,
{
    if i < a.len() {
        assert(a[i].id == b[i].id);
        lemma_index_from_same_ids(a, b, id, i + 1);
    }
}

proof fn lemma_climbs_same_links(a: Seq<TaskView>, b: Seq<TaskView>, cur: Option<u128>, fuel: nat)
    requires
        same_links(a, b),
    ensures
        climbs(a, cur, fuel) == climbs(b, cur, fuel),
    decreases fuel,
{
    if fuel > 0 {
        if let Some(pid) = cur {
            lemma_index_from_same_ids(a, b, pid, 0);
            let i = first_index(a, pid);
            if 0 <= i < a.len() {
                assert(a[i].parent_id == b[i].parent_id);
                lemma_climbs_same_links(a, b, a[i].parent_id, (fuel - 1) as nat);
            }
        }
    }
}

/// Propagation changes only the statuses and histories of the tasks it
/// climbs through, and leaves every other entry as it was.
proof fn lemma_propagate_frame(ts: Seq<TaskView>, cur: Option<u128>, now: i64, fuel: nat)
    ensures
        same_links(ts, propagate(ts, cur, now, fuel)),
        forall|j: int|
            0 <= j < ts.len() && !climbs(ts, cur, fuel).contains(#[trigger] ts[j].id) ==> propagate(
                ts,
                cur,
                now,
                fuel,
            )[j] == ts[j],
    decreases fuel,
{
    if fuel > 0 {
        if let Some(pid) = cur {
            let i = first_index(ts, pid);
            crate::tree::lemma_first_index(ts, pid);
            if 0 <= i < ts.len() {
                let d = derived_status(ts, ts[i].children);
                if ts[i].status != d {
                    let ts1 = ts.update(i, transitioned(ts[i], d, now));
                    let up = ts[i].parent_id;
                    let f = (fuel - 1) as nat;
                    lemma_propagate_frame(ts1, up, now, f);
                    assert(same_links(ts, ts1));
                    lemma_climbs_same_links(ts, ts1, up, f);
                    assert(climbs(ts, cur, fuel) == seq![pid] + climbs(ts, up, f));
                    let r = propagate(ts1, up, now, f);
                    assert(same_links(ts, r)) by {
                        assert forall|j: int| 0 <= j < ts.len() implies (#[trigger] ts[j]).id == r[j].id
                            && ts[j].parent_id == r[j].parent_id by {
                            assert(ts1[j].id == r[j].id && ts1[j].parent_id == r[j].parent_id);
                        }
                    }
                    assert forall|j: int|
                        0 <= j < ts.len() && !climbs(ts, cur, fuel).contains(#[trigger] ts[j].id) implies r[j] == ts[j] by {
                        assert(climbs(ts, cur, fuel)[0] == pid);
                        assert(climbs(ts, cur, fuel).contains(pid));
                        assert(ts[j].id != pid);
                        assert(j != i);
                        assert(ts1[j] == ts[j]);
                        if climbs(ts1, up, f).contains(ts1[j].id) {
                            let k = choose|k: int| 0 <= k < climbs(ts, up, f).len() && climbs(ts, up, f)[k] == ts[j].id;
                            assert(climbs(ts, cur, fuel)[k + 1] == ts[j].id);
                        }
                    }
                }
            }
        }
    }
}

/// A parent takes the status derived from its children: after a child's
/// status changes, its parent becomes Todo if some child is Todo (whatever
/// the others are), else Doing if some child is Doing, else Done (so a parent
/// whose children are all Done becomes Done, and a Doing parent has a Doing
/// child). This holds when the parent is not among its own ancestors.
pub proof fn lemma_parent_takes_derived_status(ts: Seq<TaskView>, child: u128, now: i64)
    requires
        parent_of(ts, child) is Some,
        0 <= first_index(ts, parent_of(ts, child)->0) < ts.len(),
        !climbs(
            ts,
            ts[first_index(ts, parent_of(ts, child)->0)].parent_id,
            (ts.len() - 1) as nat,
        ).contains(parent_of(ts, child)->0),
    ensures
        ({
            let i = first_index(ts, parent_of(ts, child)->0);
            let kids = ts[i].children;
            &&& propagate_up(ts, child, now)[i].status == derived_status(ts, kids)
            &&& (exists|k: int| 0 <= k < kids.len() && (#[trigger] lookup(ts, kids[k]) matches Some(c)
                && c.status == Status::Todo)) ==> propagate_up(ts, child, now)[i].status == Status::Todo
            &&& (!(exists|k: int| 0 <= k < kids.len() && (#[trigger] lookup(ts, kids[k]) matches Some(c)
                && c.status == Status::Todo)) && (exists|k: int| 0 <= k < kids.len() && (#[trigger] lookup(
                ts,
                kids[k],
            ) matches Some(c) && c.status == Status::Doing))) ==> propagate_up(ts, child, now)[i].status
                == Status::Doing
            &&& propagate_up(ts, child, now)[i].status == Status::Doing ==> (exists|k: int| 0 <= k < kids.len()
                && (#[trigger] lookup(ts, kids[k]) matches Some(c) && c.status == Status::Doing))
            &&& (forall|k: int| 0 <= k < kids.len() ==> (#[trigger] lookup(ts, kids[k]) matches Some(c)
                ==> c.status == Status::Done)) ==> propagate_up(ts, child, now)[i].status == Status::Done
        }),
{
    let pid = parent_of(ts, child)->0;
    let i = first_index(ts, pid);
    crate::tree::lemma_first_index(ts, pid);
    let d = derived_status(ts, ts[i].children);
    assert(ts.len() > 0);
    if ts[i].status != d {
        let ts1 = ts.update(i, transitioned(ts[i], d, now));
        let up = ts[i].parent_id;
        let f = (ts.len() - 1) as nat;
        assert(same_links(ts, ts1));
        lemma_climbs_same_links(ts, ts1, up, f);
        lemma_propagate_frame(ts1, up, now, f);
        assert(ts1[i].id == pid);
    }
}

/// Entries with the project `p` set, or left as they were.
pub open spec fn projected(a: Seq<TaskView>, b: Seq<TaskView>, p: Seq<char>) -> bool {
    &&& a.len() == b.len()
    &&& forall|j: int| 0 <= j < a.len() ==> #[trigger] b[j] == a[j] || b[j] == crate::edit::with_project(a[j], p)
}

proof fn lemma_projected_trans(a: Seq<TaskView>, b: Seq<TaskView>, c: Seq<TaskView>, p: Seq<char>)
    requires
        projected(a, b, p),
        projected(b, c, p),
    ensures
        projected(a, c, p),
{
    assert forall|j: int| 0 <= j < a.len() implies #[trigger] c[j] == a[j] || c[j] == crate::edit::with_project(a[j], p) by {
        assert(b[j] == a[j] || b[j] == crate::edit::with_project(a[j], p));
        assert(c[j] == b[j] || c[j] == crate::edit::with_project(b[j], p));
    }
}

proof fn lemma_set_project_projected(ts: Seq<TaskView>, id: u128, p: Seq<char>, fuel: nat)
    ensures
        projected(ts, crate::edit::set_project_spec(ts, id, p, fuel), p),
        fuel > 0 && 0 <= first_index(ts, id) < ts.len() ==> crate::edit::set_project_spec(ts, id, p, fuel)[first_index(ts, id)].project == p,
    decreases fuel, 0int, 0int,
{
    if fuel > 0 {
        let kids = match lookup(ts, id) {
            Some(t) => t.children,
            None => Seq::empty(),
        };
        let ts1 = update_first(ts, id, |t: TaskView| crate::edit::with_project(t, p));
        let i = first_index(ts, id);
        assert(projected(ts, ts1, p));
        lemma_set_project_kids_projected(ts1, kids, 0, p, (fuel - 1) as nat);
        lemma_projected_trans(ts, ts1, crate::edit::set_project_spec(ts, id, p, fuel), p);
        if 0 <= i < ts.len() {
            let r = crate::edit::set_project_spec(ts, id, p, fuel);
            assert(r[i] == ts1[i] || r[i] == crate::edit::with_project(ts1[i], p));
        }
    }
}

proof fn lemma_set_project_kids_projected(ts: Seq<TaskView>, kids: Seq<u128>, i: int, p: Seq<char>, fuel: nat)
    ensures
        projected(ts, crate::edit::set_project_kids(ts, kids, i, p, fuel), p),
    decreases fuel, 1int, kids.len() - i,
{
    if 0 <= i < kids.len() {
        let ts1 = crate::edit::set_project_spec(ts, kids[i], p, fuel);
        lemma_set_project_projected(ts, kids[i], p, fuel);
        lemma_set_project_kids_projected(ts1, kids, i + 1, p, fuel);
        lemma_projected_trans(ts, ts1, crate::edit::set_project_kids(ts, kids, i, p, fuel), p);
    } else {
        assert(projected(ts, ts, p));
    }
}

/// Changing the first task `id` by a change that keeps identifiers and
/// projects keeps them in every entry.
proof fn lemma_update_first_keeps(ts: Seq<TaskView>, id: u128, f: spec_fn(TaskView) -> TaskView)
    requires
        forall|t: TaskView| #[trigger] f(t).id == t.id && f(t).project == t.project,
    ensures
        same_ids(ts, update_first(ts, id, f)),
        forall|j: int| 0 <= j < ts.len() ==> (#[trigger] update_first(ts, id, f)[j]).project == ts[j].project,
{
    let i = first_index(ts, id);
    if 0 <= i < ts.len() {
        assert(f(ts[i]).id == ts[i].id);
    }
}

/// A task made the child of a task with a project takes that project.
pub proof fn lemma_child_takes_parent_project(ts: Seq<TaskView>, child: u128, old_parent: Option<u128>, new_parent: u128)
    requires
        lookup(ts, child) is Some,
        lookup(ts, new_parent) matches Some(pt) && pt.project.len() > 0,
    ensures
        lookup(crate::edit::adopt_spec(ts, child, old_parent, new_parent), child) matches Some(t)
            && t.project == lookup(ts, new_parent)->0.project,
{
    let ts1 = match old_parent {
        Some(op) => crate::edit::unlink(ts, op, child),
        None => ts,
    };
    if let Some(op) = old_parent {
        lemma_update_first_keeps(ts, op, |t: TaskView| crate::edit::with_children(t, crate::edit::without(t.children, child)));
    }
    assert(same_ids(ts, ts1) && forall|j: int| 0 <= j < ts.len() ==> (#[trigger] ts1[j]).project == ts[j].project);
    let ts_r = crate::edit::reparent(ts1, child, Some(new_parent));
    lemma_update_first_keeps(ts1, child, |t: TaskView| crate::edit::with_parent(t, Some(new_parent)));
    let ts2 = crate::edit::link(ts_r, new_parent, child);
    lemma_update_first_keeps(
        ts_r,
        new_parent,
        |t: TaskView|
            if t.children.contains(child) {
                t
            } else {
                crate::edit::with_children(t, t.children.push(child))
            },
    );
    assert(same_ids(ts, ts2));
    assert(forall|j: int| 0 <= j < ts.len() ==> (#[trigger] ts2[j]).project == ts[j].project);
    lemma_index_from_same_ids(ts, ts2, child, 0);
    lemma_index_from_same_ids(ts, ts2, new_parent, 0);
    crate::tree::lemma_first_index(ts, child);
    crate::tree::lemma_first_index(ts, new_parent);
    let pp = lookup(ts2, new_parent)->0.project;
    assert(pp == lookup(ts, new_parent)->0.project);
    let r = crate::edit::set_project_spec(ts2, child, pp, ts2.len() as nat);
    lemma_set_project_projected(ts2, child, pp, ts2.len() as nat);
    assert(same_ids(ts2, r)) by {
        assert forall|j: int| 0 <= j < ts2.len() implies (#[trigger] ts2[j]).id == r[j].id by {
            assert(r[j] == ts2[j] || r[j] == crate::edit::with_project(ts2[j], pp));
        }
    }
    lemma_index_from_same_ids(ts2, r, child, 0);
    assert(crate::edit::adopt_spec(ts, child, old_parent, new_parent) == r);
}

/// Toggling the fold of the cursor's task twice gives back the folded set.
pub proof fn lemma_fold_toggle_twice(a0: App, a1: App, a2: App)
    requires
        App::fold_toggled(a0, a1),
        App::fold_toggled(a1, a2),
    ensures
        a2.collapsed@ == a0.collapsed@,
{
    App::lemma_view_frame(&a0, &a1);
    assert(a1.selected(a1.focused_col) == a0.selected(a0.focused_col));
    if let Some(id) = a0.selected(a0.focused_col) {
        if a0.collapsed@.contains(id) {
            assert(a0.collapsed@.remove(id).insert(id) =~= a0.collapsed@);
        } else {
            assert(a0.collapsed@.insert(id).remove(id) =~= a0.collapsed@);
        }
    }
}

/// The undo history never holds more than fifty lists: saving for undo in a
/// state whose history is within that bound keeps it within the bound.
pub proof fn lemma_undo_history_bounded(before: App, after: App)
    requires
        before.undo_stack@.len() <= 50,
        App::undo_saved(before, after),
    ensures
        after.undo_stack@.len() <= 50,
{
    assert(stack_views(after.undo_stack@).len() == after.undo_stack@.len());
    assert(stack_views(before.undo_stack@).len() == before.undo_stack@.len());
}

/// When a task with a project is made the child of a task without one, the
/// top of the new parent's family takes the child's project.
pub proof fn lemma_family_takes_child_project(ts: Seq<TaskView>, child: u128, old_parent: Option<u128>, new_parent: u128)
    requires
        lookup(ts, child) matches Some(ct) && ct.project.len() > 0,
        lookup(ts, new_parent) matches Some(pt) && pt.project.len() == 0,
    ensures
        ({
            let r = crate::edit::adopt_spec(ts, child, old_parent, new_parent);
            let ts1 = match old_parent {
                Some(op) => crate::edit::unlink(ts, op, child),
                None => ts,
            };
            let ts2 = crate::edit::link(crate::edit::reparent(ts1, child, Some(new_parent)), new_parent, child);
            let top = crate::tree::root_of(ts2, new_parent, ts2.len() as nat);
            lookup(ts2, top) is Some ==> (lookup(r, top) matches Some(t) && t.project == lookup(ts, child)->0.project)
        }),
{
    let ts1 = match old_parent {
        Some(op) => crate::edit::unlink(ts, op, child),
        None => ts,
    };
    if let Some(op) = old_parent {
        lemma_update_first_keeps(ts, op, |t: TaskView| crate::edit::with_children(t, crate::edit::without(t.children, child)));
    }
    let ts_r = crate::edit::reparent(ts1, child, Some(new_parent));
    lemma_update_first_keeps(ts1, child, |t: TaskView| crate::edit::with_parent(t, Some(new_parent)));
    let ts2 = crate::edit::link(ts_r, new_parent, child);
    lemma_update_first_keeps(
        ts_r,
        new_parent,
        |t: TaskView|
            if t.children.contains(child) {
                t
            } else {
                crate::edit::with_children(t, t.children.push(child))
            },
    );
    assert(same_ids(ts, ts2));
    assert(forall|j: int| 0 <= j < ts.len() ==> (#[trigger] ts2[j]).project == ts[j].project);
    lemma_index_from_same_ids(ts, ts2, child, 0);
    lemma_index_from_same_ids(ts, ts2, new_parent, 0);
    crate::tree::lemma_first_index(ts, child);
    crate::tree::lemma_first_index(ts, new_parent);
    let cp = lookup(ts2, child)->0.project;
    assert(cp == lookup(ts, child)->0.project);
    assert(lookup(ts2, new_parent)->0.project.len() == 0);
    let top = crate::tree::root_of(ts2, new_parent, ts2.len() as nat);
    if lookup(ts2, top) is Some {
        crate::tree::lemma_first_index(ts2, top);
        let r = crate::edit::set_project_spec(ts2, top, cp, ts2.len() as nat);
        lemma_set_project_projected(ts2, top, cp, ts2.len() as nat);
        assert(same_ids(ts2, r)) by {
            assert forall|j: int| 0 <= j < ts2.len() implies (#[trigger] ts2[j]).id == r[j].id by {
                assert(r[j] == ts2[j] || r[j] == crate::edit::with_project(ts2[j], cp));
            }
        }
        lemma_index_from_same_ids(ts2, r, top, 0);
        assert(crate::edit::adopt_spec(ts, child, old_parent, new_parent) == r);
    }
}

/// The tasks propagation visits from `cur`: each one whose status it
/// changes, and the first one whose status already matched its children.
pub open spec fn reached(ts: Seq<TaskView>, cur: Option<u128>, now: i64, fuel: nat) -> Seq<u128>
    decreases fuel,
{
    if fuel == 0 {
        Seq::empty()
    } else {
        match cur {
            None => Seq::empty(),
            Some(pid) => {
                let i = first_index(ts, pid);
                if i < 0 || i >= ts.len() {
                    Seq::empty()
                } else {
                    let d = derived_status(ts, ts[i].children);
                    if ts[i].status != d {
                        seq![pid] + reached(
                            ts.update(i, transitioned(ts[i], d, now)),
                            ts[i].parent_id,
                            now,
                            (fuel - 1) as nat,
                        )
                    } else {
                        seq![pid]
                    }
                }
            },
        }
    }
}

/// The chain of parents from `cur` is that of a tree: no task on it is its
/// own child or among its own ancestors, and none of its children is among
/// its ancestors.
pub open spec fn tree_chain(ts: Seq<TaskView>, cur: Option<u128>, fuel: nat) -> bool
    decreases fuel,
{
    if fuel == 0 {
        true
    } else {
        match cur {
            None => true,
            Some(pid) => {
                let i = first_index(ts, pid);
                if i < 0 || i >= ts.len() {
                    true
                } else {
                    let up = climbs(ts, ts[i].parent_id, (fuel - 1) as nat);
                    &&& !up.contains(pid)
                    &&& !ts[i].children.contains(pid)
                    &&& forall|k: int| 0 <= k < ts[i].children.len() ==> !up.contains(#[trigger] ts[i].children[k])
                    &&& tree_chain(ts, ts[i].parent_id, (fuel - 1) as nat)
                }
            },
        }
    }
}

/// Task `id` has the status derived from its children.
pub open spec fn consistent(ts: Seq<TaskView>, id: u128) -> bool {
    let j = first_index(ts, id);
    0 <= j < ts.len() && ts[j].status == derived_status(ts, ts[j].children)
}

/// Same identifiers, parent links and children, entry by entry.
pub open spec fn same_shape(a: Seq<TaskView>, b: Seq<TaskView>) -> bool {
    &&& same_links(a, b)
    &&& forall|j: int| 0 <= j < a.len() ==> (#[trigger] a[j]).children == b[j].children
}

proof fn lemma_tree_chain_shape(a: Seq<TaskView>, b: Seq<TaskView>, cur: Option<u128>, fuel: nat)
    requires
        same_shape(a, b),
    ensures
        tree_chain(a, cur, fuel) == tree_chain(b, cur, fuel),
    decreases fuel,
{
    if fuel > 0 {
        if let Some(pid) = cur {
            lemma_index_from_same_ids(a, b, pid, 0);
            let i = first_index(a, pid);
            if 0 <= i < a.len() {
                assert(a[i].parent_id == b[i].parent_id && a[i].children == b[i].children);
                lemma_climbs_same_links(a, b, a[i].parent_id, (fuel - 1) as nat);
                lemma_tree_chain_shape(a, b, a[i].parent_id, (fuel - 1) as nat);
            }
        }
    }
}

/// Propagation leaves every task it visits with the status derived from its
/// children, when the chain of parents is that of a tree: a parent whose
/// children are all Done is Done, and so on up to the root, up to the
/// first ancestor that already had its derived status.
pub proof fn lemma_propagation_consistent(ts: Seq<TaskView>, cur: Option<u128>, now: i64, fuel: nat)
    requires
        tree_chain(ts, cur, fuel),
    ensures
        forall|id: u128| #[trigger] reached(ts, cur, now, fuel).contains(id) ==> consistent(
            propagate(ts, cur, now, fuel),
            id,
        ),
    decreases fuel,
{
    if fuel > 0 {
        if let Some(pid) = cur {
            let i = first_index(ts, pid);
            crate::tree::lemma_first_index(ts, pid);
            if 0 <= i < ts.len() {
                let kids = ts[i].children;
                let d = derived_status(ts, kids);
                if ts[i].status != d {
                    let ts1 = ts.update(i, transitioned(ts[i], d, now));
                    let up = ts[i].parent_id;
                    let f = (fuel - 1) as nat;
                    assert(same_shape(ts, ts1));
                    assert(same_links(ts, ts1));
                    lemma_tree_chain_shape(ts, ts1, up, f);
                    lemma_propagation_consistent(ts1, up, now, f);
                    lemma_climbs_same_links(ts, ts1, up, f);
                    lemma_propagate_frame(ts1, up, now, f);
                    let r = propagate(ts1, up, now, f);
                    assert(r == propagate(ts, cur, now, fuel));
                    assert(same_links(ts, r)) by {
                        assert forall|j: int| 0 <= j < ts.len() implies (#[trigger] ts[j]).id == r[j].id
                            && ts[j].parent_id == r[j].parent_id by {
                            assert(ts1[j].id == r[j].id && ts1[j].parent_id == r[j].parent_id);
                        }
                    }
                    lemma_index_from_same_ids(ts, r, pid, 0);
                    assert(ts1[i].id == pid);
                    assert(r[i] == ts1[i]);
                    assert forall|k: int| 0 <= k < kids.len() implies #[trigger] lookup(r, kids[k]) == lookup(
                        ts,
                        kids[k],
                    ) by {
                        let kid = kids[k];
                        lemma_index_from_same_ids(ts, r, kid, 0);
                        crate::tree::lemma_first_index(ts, kid);
                        let jk = first_index(ts, kid);
                        if 0 <= jk < ts.len() {
                            assert(ts[jk].id == kid);
                            assert(kid != pid);
                            assert(jk != i);
                            assert(ts1[jk] == ts[jk]);
                            assert(!climbs(ts1, up, f).contains(ts1[jk].id));
                            assert(r[jk] == ts1[jk]);
                        }
                    }
                    assert(any_child_with(r, kids, Status::Todo) == any_child_with(ts, kids, Status::Todo)) by {
                        if any_child_with(ts, kids, Status::Todo) {
                            let k = choose|k: int|
                                0 <= k < kids.len() && (#[trigger] lookup(ts, kids[k]) matches Some(c) && c.status
                                    == Status::Todo);
                            assert(lookup(r, kids[k]) == lookup(ts, kids[k]));
                        }
                        if any_child_with(r, kids, Status::Todo) {
                            let k = choose|k: int|
                                0 <= k < kids.len() && (#[trigger] lookup(r, kids[k]) matches Some(c) && c.status
                                    == Status::Todo);
                            assert(lookup(r, kids[k]) == lookup(ts, kids[k]));
                        }
                    }
                    assert(any_child_with(r, kids, Status::Doing) == any_child_with(ts, kids, Status::Doing)) by {
                        if any_child_with(ts, kids, Status::Doing) {
                            let k = choose|k: int|
                                0 <= k < kids.len() && (#[trigger] lookup(ts, kids[k]) matches Some(c) && c.status
                                    == Status::Doing);
                            assert(lookup(r, kids[k]) == lookup(ts, kids[k]));
                        }
                        if any_child_with(r, kids, Status::Doing) {
                            let k = choose|k: int|
                                0 <= k < kids.len() && (#[trigger] lookup(r, kids[k]) matches Some(c) && c.status
                                    == Status::Doing);
                            assert(lookup(r, kids[k]) == lookup(ts, kids[k]));
                        }
                    }
                    assert(consistent(r, pid));
                    assert forall|id: u128| #[trigger] reached(ts, cur, now, fuel).contains(id) implies consistent(
                        r,
                        id,
                    ) by {
                        let rest = reached(ts1, up, now, f);
                        assert(reached(ts, cur, now, fuel) == seq![pid] + rest);
                        if id != pid {
                            let x = choose|x: int| 0 <= x < reached(ts, cur, now, fuel).len() && reached(ts, cur, now, fuel)[x] == id;
                            assert(x >= 1);
                            assert(rest[x - 1] == id);
                            assert(rest.contains(id));
                        }
                    }
                } else {
                    assert forall|id: u128| #[trigger] reached(ts, cur, now, fuel).contains(id) implies consistent(
                        propagate(ts, cur, now, fuel),
                        id,
                    ) by {
                        assert(reached(ts, cur, now, fuel) == seq![pid]);
                        assert(seq![pid][0] == pid);
                    }
                }
            }
        }
    }
}

proof fn lemma_orphan_all_ids(ts: Seq<TaskView>, kids: Seq<u128>, k: int)
    ensures
        same_ids(ts, crate::edit::orphan_all(ts, kids, k)),
    decreases k,
{
    if k > 0 {
        lemma_orphan_all_ids(ts, kids, k - 1);
        let prev = crate::edit::orphan_all(ts, kids, k - 1);
        lemma_update_first_keeps(prev, kids[k - 1], |t: TaskView| crate::edit::with_parent(t, None));
    }
}

proof fn lemma_drop_id_upto(ts: Seq<TaskView>, id: u128, k: int)
    requires
        0 <= k <= ts.len(),
    ensures
        forall|j: int| 0 <= j < crate::edit::drop_id_upto(ts, id, k).len() ==> (#[trigger] crate::edit::drop_id_upto(
            ts,
            id,
            k,
        )[j]).id != id,
        forall|x: int| 0 <= x < k && ts[x].id != id ==> #[trigger] crate::tree::has_id(
            crate::edit::drop_id_upto(ts, id, k),
            ts[x].id,
        ),
    decreases k,
{
    if k > 0 {
        lemma_drop_id_upto(ts, id, k - 1);
        let prev = crate::edit::drop_id_upto(ts, id, k - 1);
        let cur = crate::edit::drop_id_upto(ts, id, k);
        assert forall|x: int| 0 <= x < k && ts[x].id != id implies #[trigger] crate::tree::has_id(cur, ts[x].id) by {
            if x < k - 1 {
                assert(crate::tree::has_id(prev, ts[x].id));
                let w = choose|w: int| 0 <= w < prev.len() && prev[w].id == ts[x].id;
                if ts[k - 1].id != id {
                    assert(cur[w] == prev[w]);
                }
            } else {
                assert(cur[prev.len() as int] == ts[k - 1]);
            }
        }
    }
}

/// Deleting a task leaves no task with its identifier, and every task with
/// another identifier is still there.
pub proof fn lemma_delete_removes_only(ts: Seq<TaskView>, id: u128)
    ensures
        forall|j: int| 0 <= j < crate::edit::delete_spec(ts, id).len() ==> (#[trigger] crate::edit::delete_spec(
            ts,
            id,
        )[j]).id != id,
        forall|x: u128| x != id && #[trigger] crate::tree::has_id(ts, x) ==> crate::tree::has_id(
            crate::edit::delete_spec(ts, id),
            x,
        ),
{
    let ts1 = match parent_of(ts, id) {
        Some(p) => crate::edit::unlink(ts, p, id),
        None => ts,
    };
    if let Some(p) = parent_of(ts, id) {
        lemma_update_first_keeps(ts, p, |t: TaskView| crate::edit::with_children(t, crate::edit::without(t.children, id)));
    }
    let kids = match lookup(ts1, id) {
        Some(t) => t.children,
        None => Seq::empty(),
    };
    let ts2 = crate::edit::orphan_all(ts1, kids, kids.len() as int);
    lemma_orphan_all_ids(ts1, kids, kids.len() as int);
    lemma_drop_id_upto(ts2, id, ts2.len() as int);
    assert forall|x: u128| x != id && #[trigger] crate::tree::has_id(ts, x) implies crate::tree::has_id(
        crate::edit::delete_spec(ts, id),
        x,
    ) by {
        let w = choose|w: int| 0 <= w < ts.len() && ts[w].id == x;
        assert(ts1[w].id == x);
        assert(ts2[w].id == x);
    }
}

/// Making a task the child of another links the two both ways: the task
/// names its new parent, and the parent lists the task among its children.
pub proof fn lemma_adopt_links(ts: Seq<TaskView>, child: u128, old_parent: Option<u128>, new_parent: u128)
    requires
        lookup(ts, child) is Some,
        lookup(ts, new_parent) is Some,
        child != new_parent,
    ensures
        ({
            let r = crate::edit::adopt_spec(ts, child, old_parent, new_parent);
            &&& lookup(r, child) matches Some(c) && c.parent_id == Some(new_parent)
            &&& lookup(r, new_parent) matches Some(p) && p.children.contains(child)
        }),
{
    let ts1 = match old_parent {
        Some(op) => crate::edit::unlink(ts, op, child),
        None => ts,
    };
    if let Some(op) = old_parent {
        lemma_update_first_keeps(ts, op, |t: TaskView| crate::edit::with_children(t, crate::edit::without(t.children, child)));
    }
    let tsr = crate::edit::reparent(ts1, child, Some(new_parent));
    lemma_update_first_keeps(ts1, child, |t: TaskView| crate::edit::with_parent(t, Some(new_parent)));
    let ts2 = crate::edit::link(tsr, new_parent, child);
    lemma_update_first_keeps(
        tsr,
        new_parent,
        |t: TaskView|
            if t.children.contains(child) {
                t
            } else {
                crate::edit::with_children(t, t.children.push(child))
            },
    );
    crate::tree::lemma_first_index(ts, child);
    crate::tree::lemma_first_index(ts, new_parent);
    lemma_index_from_same_ids(ts, ts1, child, 0);
    lemma_index_from_same_ids(ts, ts1, new_parent, 0);
    lemma_index_from_same_ids(ts, tsr, child, 0);
    lemma_index_from_same_ids(ts, tsr, new_parent, 0);
    lemma_index_from_same_ids(ts, ts2, child, 0);
    lemma_index_from_same_ids(ts, ts2, new_parent, 0);
    let ic = first_index(ts, child);
    let ip = first_index(ts, new_parent);
    assert(ic != ip);
    assert(tsr[ic].parent_id == Some(new_parent));
    assert(ts2[ic] == tsr[ic]);
    assert(ts2[ip].children.contains(child)) by {
        if !tsr[ip].children.contains(child) {
            let n = tsr[ip].children.push(child);
            assert(n[n.len() - 1] == child);
        }
    }
    let r = crate::edit::adopt_spec(ts, child, old_parent, new_parent);
    let pp = match lookup(ts2, new_parent) {
        Some(t) => t.project,
        None => Seq::empty(),
    };
    let cp = match lookup(ts2, child) {
        Some(t) => t.project,
        None => Seq::empty(),
    };
    let target: u128 = if pp.len() > 0 { child } else { crate::tree::root_of(ts2, new_parent, ts2.len() as nat) };
    let proj = if pp.len() > 0 { pp } else { cp };
    if pp.len() > 0 || cp.len() > 0 {
        lemma_set_project_projected(ts2, target, proj, ts2.len() as nat);
        assert(r == crate::edit::set_project_spec(ts2, target, proj, ts2.len() as nat));
    } else {
        assert(r == ts2);
        assert(projected(ts2, r, proj));
    }
    assert(same_ids(ts2, r)) by {
        assert forall|j: int| 0 <= j < ts2.len() implies (#[trigger] ts2[j]).id == r[j].id by {
            assert(r[j] == ts2[j] || r[j] == crate::edit::with_project(ts2[j], proj));
        }
    }
    lemma_index_from_same_ids(ts2, r, child, 0);
    lemma_index_from_same_ids(ts2, r, new_parent, 0);
    assert(r[ic] == ts2[ic] || r[ic] == crate::edit::with_project(ts2[ic], proj));
    assert(r[ip] == ts2[ip] || r[ip] == crate::edit::with_project(ts2[ip], proj));
}

proof fn lemma_without_upto(s: Seq<u128>, x: u128, k: int)
    ensures
        !crate::edit::without_upto(s, x, k).contains(x),
    decreases k,
{
    if k > 0 {
        lemma_without_upto(s, x, k - 1);
        let prev = crate::edit::without_upto(s, x, k - 1);
        if s[k - 1] != x {
            let cur = prev.push(s[k - 1]);
            assert forall|j: int| 0 <= j < cur.len() implies cur[j] != x by {
                if j < prev.len() {
                    assert(cur[j] == prev[j]);
                }
            }
        }
    }
}

/// Moving a task up a level links it both ways with its grandparent (or
/// makes it a top-level task), and its former parent no longer lists it.
pub proof fn lemma_promote_links(ts: Seq<TaskView>, id: u128, old_pid: u128, gp: Option<u128>)
    requires
        lookup(ts, id) is Some,
        lookup(ts, old_pid) is Some,
        id != old_pid,
        gp != Some(old_pid),
        gp != Some(id),
        gp matches Some(g) ==> lookup(ts, g) is Some,
    ensures
        ({
            let r = crate::edit::promote_spec(ts, id, old_pid, gp);
            &&& lookup(r, id) matches Some(t) && t.parent_id == gp
            &&& lookup(r, old_pid) matches Some(p) && !p.children.contains(id)
            &&& (gp matches Some(g) ==> (lookup(r, g) matches Some(q) && q.children.contains(id)))
        }),
{
    let ts0 = crate::edit::unlink(ts, old_pid, id);
    lemma_update_first_keeps(ts, old_pid, |t: TaskView| crate::edit::with_children(t, crate::edit::without(t.children, id)));
    let ts1 = crate::edit::reparent(ts0, id, gp);
    lemma_update_first_keeps(ts0, id, |t: TaskView| crate::edit::with_parent(t, gp));
    crate::tree::lemma_first_index(ts, id);
    crate::tree::lemma_first_index(ts, old_pid);
    lemma_index_from_same_ids(ts, ts0, id, 0);
    lemma_index_from_same_ids(ts, ts0, old_pid, 0);
    lemma_index_from_same_ids(ts, ts1, id, 0);
    lemma_index_from_same_ids(ts, ts1, old_pid, 0);
    let ii = first_index(ts, id);
    let io = first_index(ts, old_pid);
    assert(ii != io);
    lemma_without_upto(ts[io].children, id, ts[io].children.len() as int);
    assert(!ts0[io].children.contains(id));
    assert(ts1[io] == ts0[io]);
    assert(ts1[ii].parent_id == gp);
    match gp {
        None => {},
        Some(g) => {
            let r = crate::edit::link(ts1, g, id);
            lemma_update_first_keeps(
                ts1,
                g,
                |t: TaskView|
                    if t.children.contains(id) {
                        t
                    } else {
                        crate::edit::with_children(t, t.children.push(id))
                    },
            );
            crate::tree::lemma_first_index(ts, g);
            lemma_index_from_same_ids(ts, ts1, g, 0);
            lemma_index_from_same_ids(ts, r, g, 0);
            lemma_index_from_same_ids(ts, r, id, 0);
            lemma_index_from_same_ids(ts, r, old_pid, 0);
            let ig = first_index(ts, g);
            assert(ig != ii && ig != io);
            assert(r[ii] == ts1[ii]);
            assert(r[io] == ts1[io]);
            assert(r[ig].children.contains(id)) by {
                if !ts1[ig].children.contains(id) {
                    let n = ts1[ig].children.push(id);
                    assert(n[n.len() - 1] == id);
                }
            }
        },
    }
}

/// Entering the tree for the task under the cursor and leaving it again
/// brings back the board's filter, returns to the board, and remembers the
/// tree's filter for the next visit.
pub proof fn lemma_planning_round_trip(board: App, tree: App, back: App)
    requires
        board.selected(board.focused_col) matches Some(id) && board.find(id) is Some,
        App::enter_planning_for_selected_done(board, tree),
        App::exit_planning_done(tree, back),
    ensures
        back.active_slots == board.active_slots,
        back.show_unc == board.show_unc,
        back.view_mode == crate::board::ViewMode::Board,
        back.last_tree_slots == tree.active_slots,
        back.last_tree_show_unc == tree.show_unc,
        back.tasks == board.tasks,
{
}

/// The named slots among the first `k` are the named ones below `k`, in
/// increasing order.
proof fn lemma_named_order(projects: Seq<Option<String>>, k: int)
    requires
        0 <= k <= projects.len(),
        k <= 10,
    ensures
        forall|j: int|
            0 <= j < named_items(projects, k).len() ==> (#[trigger] named_items(projects, k)[j] matches Some(v)
                && v < k && projects[v as int] is Some),
        forall|i: int, j: int|
            0 <= i < j < named_items(projects, k).len() ==> (#[trigger] named_items(projects, k)[i])->0
                < (#[trigger] named_items(projects, k)[j])->0,
        forall|v: int| 0 <= v < k && projects[v] is Some ==> named_items(projects, k).contains(Some(v as usize)),
    decreases k,
{
    if k > 0 {
        lemma_named_order(projects, k - 1);
        let prev = named_items(projects, k - 1);
        let cur = named_items(projects, k);
        if projects[k - 1] is Some {
            assert(((k - 1) as usize) as int == k - 1);
            assert forall|j: int| 0 <= j < cur.len() implies (#[trigger] cur[j] matches Some(v) && v < k
                && projects[v as int] is Some) by {
                if j < prev.len() {
                    assert(cur[j] == prev[j]);
                } else {
                    assert(cur[j] == Some((k - 1) as usize));
                }
            }
            assert forall|i: int, j: int| 0 <= i < j < cur.len() implies (#[trigger] cur[i])->0
                < (#[trigger] cur[j])->0 by {
                assert(cur[i] == prev[i]);
                if j < prev.len() {
                    assert(cur[j] == prev[j]);
                } else {
                    assert(cur[j] == Some((k - 1) as usize));
                }
            }
            assert forall|v: int| 0 <= v < k && projects[v] is Some implies cur.contains(Some(v as usize)) by {
                if v == k - 1 {
                    assert(cur[cur.len() - 1] == Some(v as usize));
                } else {
                    let w = choose|w: int| 0 <= w < prev.len() && prev[w] == Some(v as usize);
                    assert(cur[w] == Some(v as usize));
                }
            }
        }
    }
}

/// `item_pos` finds the first occurrence.
proof fn lemma_item_pos_hit(s: Seq<Option<usize>>, x: Option<usize>, i: int)
    requires
        0 <= i,
    ensures
        item_pos(s, x, i) >= 0 ==> i <= item_pos(s, x, i) < s.len() && s[item_pos(s, x, i)] == x,
        item_pos(s, x, i) < 0 ==> forall|j: int| i <= j < s.len() ==> s[j] != x,
    decreases s.len() - i,
{
    if i < s.len() && s[i] != x {
        lemma_item_pos_hit(s, x, i + 1);
    }
}

/// The only slot switched on is the first one switched on.
proof fn lemma_first_on_only(on: Option<int>, i: int)
    requires
        0 <= i <= 10,
        on matches Some(s) ==> i <= s < 10,
    ensures
        first_on(only_slot(on), i) == on,
    decreases 10 - i,
{
    if i < 10 && only_slot(on)[i] != true {
        lemma_first_on_only(on, i + 1);
    }
}

/// Where the cycle stands is an entry whose filter is the one shown, and the
/// entries are distinct.
proof fn lemma_cycle_entry(a: App)
    requires
        (a.show_unc && forall|j: int| 0 <= j < 10 ==> !#[trigger] a.active_slots@[j]) || (exists|v: int|
            0 <= v < 10 && a.active_slots@ == only_slot(Some(v)) && a.projects@[v] is Some && !a.show_unc),
    ensures
        0 <= a.cycle_current() < a.cycle_items().len(),
        a.active_slots@ == only_slot(
            match a.cycle_items()[a.cycle_current()] {
                Some(v) => Some(v as int),
                None => None,
            },
        ),
        a.show_unc == (a.cycle_items()[a.cycle_current()] is None),
{
    let items = a.cycle_items();
    let named = named_items(a.projects@, 10);
    lemma_named_order(a.projects@, 10);
    assert(items[0] == None::<usize>);
    if a.show_unc && forall|j: int| 0 <= j < 10 ==> !#[trigger] a.active_slots@[j] {
        lemma_first_on_only(None, 0);
        assert(a.active_slots@ =~= only_slot(None));
    } else {
        let v = choose|v: int| 0 <= v < 10 && a.active_slots@ == only_slot(Some(v)) && a.projects@[v] is Some && !a.show_unc;
        lemma_first_on_only(Some(v), 0);
        let w = choose|w: int| 0 <= w < named.len() && named[w] == Some(v as usize);
        assert(items[w + 1] == Some(v as usize));
        lemma_item_pos_hit(items, Some(v as usize), 0);
        let q = item_pos(items, Some(v as usize), 0);
        assert(q >= 0);
        assert(items[q] == Some(v as usize));
    }
}

/// The cycle's entries are distinct.
proof fn lemma_cycle_distinct(a: App)
    ensures
        forall|i: int, j: int|
            0 <= i < j < a.cycle_items().len() ==> #[trigger] a.cycle_items()[i] != #[trigger] a.cycle_items()[j],
{
    let items = a.cycle_items();
    let named = named_items(a.projects@, 10);
    lemma_named_order(a.projects@, 10);
    assert forall|i: int, j: int| 0 <= i < j < items.len() implies #[trigger] items[i] != #[trigger] items[j] by {
        assert(items[j] == named[j - 1]);
        if i > 0 {
            assert(items[i] == named[i - 1]);
        }
    }
}

/// Once the cycle shows entry `k`, it stands at `k`.
proof fn lemma_cycle_at(b: App, k: int)
    requires
        0 <= k < b.cycle_items().len(),
        b.active_slots@ == only_slot(
            match b.cycle_items()[k] {
                Some(v) => Some(v as int),
                None => None,
            },
        ),
        b.show_unc == (b.cycle_items()[k] is None),
    ensures
        b.cycle_current() == k,
{
    let items = b.cycle_items();
    let named = named_items(b.projects@, 10);
    lemma_named_order(b.projects@, 10);
    lemma_cycle_distinct(b);
    match items[k] {
        None => {
            lemma_first_on_only(None, 0);
            if k > 0 {
                assert(items[k] == named[k - 1]);
            }
        },
        Some(v) => {
            assert(items[k] == named[k - 1]);
            lemma_first_on_only(Some(v as int), 0);
            lemma_item_pos_hit(items, Some(v), 0);
            let q = item_pos(items, Some(v), 0);
            assert(q >= 0 && items[q] == Some(v));
            if q != k {
                if q < k {
                    assert(items[q] != items[k]);
                } else {
                    assert(items[k] != items[q]);
                }
            }
        },
    }
}

/// Cycling the projects `d` steps and then `-d` steps brings back the filter,
/// when it showed a single entry of the cycle: INBOX alone, or one named slot
/// alone.
pub proof fn lemma_cycle_round_trip(a: App, b: App, c: App, d: i32, back: i32)
    requires
        (a.show_unc && forall|j: int| 0 <= j < 10 ==> !#[trigger] a.active_slots@[j]) || (exists|v: int|
            0 <= v < 10 && a.active_slots@ == only_slot(Some(v)) && a.projects@[v] is Some && !a.show_unc),
        back == -d,
        App::cycle_project_done(a, b, d),
        App::cycle_project_done(b, c, back),
    ensures
        c.active_slots@ == a.active_slots@,
        c.show_unc == a.show_unc,
{
    lemma_cycle_entry(a);
    let items = a.cycle_items();
    let n = items.len() as int;
    let cur = a.cycle_current();
    let k = (cur + d) % n;
    assert(b.projects == a.projects);
    assert(b.cycle_items() == items);
    assert(0 <= k < n) by {
        vstd::arithmetic::div_mod::lemma_mod_bound(cur + d, n);
    }
    lemma_cycle_at(b, k);
    assert((k + back) % n == cur) by {
        vstd::arithmetic::div_mod::lemma_add_mod_noop(cur + d, -d, n);
        vstd::arithmetic::div_mod::lemma_add_mod_noop(k, -d, n);
        vstd::arithmetic::div_mod::lemma_small_mod(k as nat, n as nat);
        vstd::arithmetic::div_mod::lemma_small_mod(cur as nat, n as nat);
    }
    assert(c.projects == a.projects);
}

/// `pos_from` from `i` is `q` exactly when `s[q]` is `x` and no entry of
/// `s[i..q]` is.
proof fn lemma_pos_from_exact(s: Seq<u128>, x: u128, i: int, q: int)
    requires
        0 <= i <= q < s.len(),
    ensures
        pos_from(s, x, i) == q <==> (s[q] == x && forall|k: int| i <= k < q ==> s[k] != x),
    decreases q - i,
{
    if i < q {
        lemma_pos_from_exact(s, x, i + 1, q);
        if s[i] == x {
            assert(pos_from(s, x, i) == i);
        } else {
            assert(pos_from(s, x, i) == pos_from(s, x, i + 1));
            if s[q] == x && forall|k: int| i + 1 <= k < q ==> s[k] != x {
                assert forall|k: int| i <= k < q implies s[k] != x by {
                    if k > i {
                        assert(i + 1 <= k < q);
                    }
                }
            }
        }
    } else {
        crate::kanban::lemma_pos_from(s, x, q + 1);
        assert(s[q] == x ==> pos_from(s, x, i) == q);
    }
}

/// Lowering every entry by one lowers the least and the greatest by one.
proof fn lemma_bounds_lowered(p: Seq<int>, r: Seq<int>, k: int)
    requires
        1 <= k <= p.len(),
        r.len() == p.len(),
        forall|j: int| 0 <= j < p.len() ==> #[trigger] r[j] == p[j] - 1,
    ensures
        least(r, k) == least(p, k) - 1,
        greatest(r, k) == greatest(p, k) - 1,
    decreases k,
{
    if k > 1 {
        lemma_bounds_lowered(p, r, k - 1);
    }
}

/// The tasks after one child list was replaced: searches by identifier and
/// parents are unchanged.
proof fn lemma_children_replaced(ts: Seq<TaskView>, i: int, c: Seq<u128>)
    requires
        0 <= i < ts.len(),
    ensures
        forall|x: u128| #[trigger] first_index(ts.update(i, with_children(ts[i], c)), x) == first_index(ts, x),
        forall|x: u128| #[trigger] parent_of(ts.update(i, with_children(ts[i], c)), x) == parent_of(ts, x),
{
    let ts1 = ts.update(i, with_children(ts[i], c));
    assert forall|x: u128| #[trigger] first_index(ts1, x) == first_index(ts, x) by {
        lemma_index_from_update(ts, i, with_children(ts[i], c), x, 0);
    }
    assert forall|x: u128| #[trigger] parent_of(ts1, x) == parent_of(ts, x) by {
        lemma_index_from_update(ts, i, with_children(ts[i], c), x, 0);
        lemma_first_index(ts, x);
        let j = first_index(ts, x);
        if 0 <= j < ts.len() && j == i {
            assert(ts1[j].parent_id == ts[j].parent_id);
        }
    }
}

/// Moving a run of children one place down undoes moving it one place up:
/// when `shift_up_in` moved the run `ids` of a parent's children above the
/// child before it, `shift_down_in` on the result gives back the tasks.
pub proof fn lemma_shift_down_undoes_up(ts: Seq<TaskView>, ids: Seq<u128>, up: Seq<TaskView>)
    requires
        shift_up_in(ts, ids) == Some(up),
        parent_of(ts, ids[0]) is Some,
    ensures
        shift_down_in(up, ids) == Some(ts),
{
    let pid = parent_of(ts, ids[0])->0;
    let c = sibling_ids(ts, Some(pid));
    let p = positions_in(c, ids);
    let (f, l) = run_of(p)->0;
    let i = first_index(ts, pid);
    lemma_first_index(ts, pid);
    assert(0 <= i < ts.len()) by {
        if !(0 <= i < ts.len()) {
            assert(c.len() == 0);
            assert(p.len() == ids.len());
            crate::kanban::lemma_pos_from(c, ids[0], 0);
        }
    }
    assert(c == ts[i].children);
    let d = moved(c, f - 1, l);
    assert(up == ts.update(i, with_children(ts[i], d)));
    lemma_children_replaced(ts, i, d);
    assert(share_parent(up, ids));
    assert(parent_of(up, ids[0]) == Some(pid));
    lemma_first_index(up, pid);
    assert(lookup(up, pid) == Some(with_children(ts[i], d)));
    assert(sibling_ids(up, Some(pid)) == d);
    // Where the run sits in `c`: every entry at a first occurrence in [f, l].
    crate::visual::lemma_least_greatest_pub(p);
    assert(0 < f <= l < c.len()) by {
        let w = choose|j: int| 0 <= j < p.len() && p[j] == greatest(p, p.len() as int);
        crate::kanban::lemma_pos_from(c, ids[w], 0);
    }
    let q = positions_in(d, ids);
    assert forall|j: int| 0 <= j < ids.len() implies #[trigger] q[j] == p[j] - 1 by {
        let x = ids[j];
        let pj = p[j];
        crate::kanban::lemma_pos_from(c, x, 0);
        assert(f <= pj <= l);
        lemma_pos_from_exact(c, x, 0, pj);
        lemma_pos_from_exact(d, x, 0, pj - 1);
        assert(d[pj - 1] == c[pj]);
        assert forall|k: int| 0 <= k < pj - 1 implies d[k] != x by {
            if k < f - 1 {
                assert(d[k] == c[k]);
            } else {
                assert(d[k] == c[k + 1]);
            }
        }
    }
    lemma_bounds_lowered(p, q, p.len() as int);
    assert(!(exists|j: int| 0 <= j < q.len() && q[j] < 0)) by {
        if exists|j: int| 0 <= j < q.len() && q[j] < 0 {
            let j = choose|j: int| 0 <= j < q.len() && q[j] < 0;
            assert(q[j] == p[j] - 1);
        }
    }
    assert(!(exists|a: int, b: int| 0 <= a < b < q.len() && q[a] == q[b])) by {
        if exists|a: int, b: int| 0 <= a < b < q.len() && q[a] == q[b] {
            let (a, b) = choose|a: int, b: int| 0 <= a < b < q.len() && q[a] == q[b];
            assert(q[a] == p[a] - 1 && q[b] == p[b] - 1);
            assert(p[a] == p[b]);
        }
    }
    assert(run_of(q) == Some((f - 1, l - 1)));
    let back = moved(d, l, f - 1);
    assert(back =~= c);
    assert(with_children(with_children(ts[i], d), c) == ts[i]);
    assert(up.update(i, with_children(up[i], back)) =~= ts);
}

/// In the visual mode, moving a run of children up and then down gives back
/// the tasks.
pub proof fn lemma_visual_shift_round_trip(a: App, b: App, c: App, ids: Seq<u128>)
    requires
        shift_up_in(crate::task::views(a.tasks@), ids) is Some,
        parent_of(crate::task::views(a.tasks@), ids[0]) is Some,
        App::visual_shift_up_done(a, b, ids),
        App::visual_shift_down_done(b, c, ids),
    ensures
        crate::task::views(c.tasks@) == crate::task::views(a.tasks@),
{
    lemma_shift_down_undoes_up(
        crate::task::views(a.tasks@),
        ids,
        shift_up_in(crate::task::views(a.tasks@), ids)->0,
    );
}


proof fn lemma_retained(o: Seq<u128>, cur: Seq<u128>, k: int)
    requires
        0 <= k <= o.len(),
    ensures
        forall|x: u128| #[trigger] retained(o, cur, k).contains(x) ==> cur.contains(x) && exists|j: int| 0 <= j < k && #[trigger] o[j] == x,
        o.no_duplicates() ==> retained(o, cur, k).no_duplicates(),
        (forall|i: int| 0 <= i < k ==> cur.contains(#[trigger] o[i])) ==> retained(o, cur, k) == o.subrange(0, k),
    decreases k,
{
    if k > 0 {
        lemma_retained(o, cur, k - 1);
        let r0 = retained(o, cur, k - 1);
        assert forall|x: u128| #[trigger] retained(o, cur, k).contains(x) implies cur.contains(x) && exists|j: int| 0 <= j < k && #[trigger] o[j] == x by {
            if r0.contains(x) {
                let j = choose|j: int| 0 <= j < k - 1 && #[trigger] o[j] == x;
                assert(o[j] == x);
            } else {
                assert(o[k - 1] == x);
            }
        }
        if o.no_duplicates() && cur.contains(o[k - 1]) {
            assert(!r0.contains(o[k - 1])) by {
                if r0.contains(o[k - 1]) {
                    let j = choose|j: int| 0 <= j < k - 1 && #[trigger] o[j] == o[k - 1];
                    assert(o[j] == o[k - 1]);
                }
            }
        }
        if forall|i: int| 0 <= i < k ==> cur.contains(#[trigger] o[i]) {
            assert(cur.contains(o[k - 1]));
            assert(o.subrange(0, k) =~= o.subrange(0, k - 1).push(o[k - 1]));
        }
    }
}

proof fn lemma_append_missing(base: Seq<u128>, cur: Seq<u128>, k: int)
    requires
        0 <= k <= cur.len(),
    ensures
        forall|x: u128| #[trigger] append_missing(base, cur, k).contains(x) ==> base.contains(x) || cur.contains(x),
        forall|x: u128| base.contains(x) ==> #[trigger] append_missing(base, cur, k).contains(x),
        forall|i: int| 0 <= i < k ==> append_missing(base, cur, k).contains(#[trigger] cur[i]),
        base.no_duplicates() ==> append_missing(base, cur, k).no_duplicates(),
        (forall|i: int| 0 <= i < k ==> base.contains(#[trigger] cur[i])) ==> append_missing(base, cur, k) == base,
    decreases k,
{
    if k > 0 {
        lemma_append_missing(base, cur, k - 1);
        let r0 = append_missing(base, cur, k - 1);
        assert forall|x: u128| base.contains(x) implies #[trigger] append_missing(base, cur, k).contains(x) by {
            assert(r0.contains(x));
            if !r0.contains(cur[k - 1]) {
                let j = choose|j: int| 0 <= j < r0.len() && r0[j] == x;
                assert(r0.push(cur[k - 1])[j] == x);
            }
        }
        assert forall|i: int| 0 <= i < k implies append_missing(base, cur, k).contains(#[trigger] cur[i]) by {
            if !r0.contains(cur[k - 1]) {
                assert(r0.push(cur[k - 1])[r0.len() as int] == cur[k - 1]);
                if i < k - 1 {
                    let j = choose|j: int| 0 <= j < r0.len() && r0[j] == cur[i];
                    assert(r0.push(cur[k - 1])[j] == cur[i]);
                }
            }
        }
        assert forall|x: u128| #[trigger] append_missing(base, cur, k).contains(x) implies base.contains(x) || cur.contains(x) by {
            if !r0.contains(cur[k - 1]) && !r0.contains(x) {
                let r1 = r0.push(cur[k - 1]);
                let j = choose|j: int| 0 <= j < r1.len() && #[trigger] r1[j] == x;
                assert(j == r0.len());
                assert(cur[k - 1] == x);
            }
        }
        if forall|i: int| 0 <= i < k ==> base.contains(#[trigger] cur[i]) {
            assert(base.contains(cur[k - 1]));
            assert(r0 == base);
        }
    }
}

proof fn lemma_pos_unique(s: Seq<u128>, x: u128, i: int)
    requires
        s.no_duplicates(),
        0 <= i < s.len(),
        s[i] == x,
    ensures
        pos_from(s, x, 0) == i,
{
    lemma_pos_from(s, x, 0);
}

proof fn lemma_swap_twice(s: Seq<u128>, a: u128, b: u128)
    requires
        s.no_duplicates(),
    ensures
        swap_ids(s, a, b).no_duplicates(),
        forall|x: u128| #[trigger] swap_ids(s, a, b).contains(x) <==> s.contains(x),
        swap_ids(swap_ids(s, a, b), a, b) == s,
{
    lemma_pos_from(s, a, 0);
    lemma_pos_from(s, b, 0);
    let pa = pos_from(s, a, 0);
    let pb = pos_from(s, b, 0);
    if pa >= 0 && pb >= 0 && pa != pb {
        let t = s.update(pa, s[pb]).update(pb, s[pa]);
        assert(t[pa] == b && t[pb] == a);
        assert forall|i: int, j: int| 0 <= i < t.len() && 0 <= j < t.len() && i != j implies t[i] != t[j] by {
            if i != pa && i != pb && j != pa && j != pb {
                assert(t[i] == s[i] && t[j] == s[j]);
            } else if i == pa && j != pb {
                assert(t[j] == s[j]);
                assert(s[pb] != s[j]);
            } else if i == pb && j != pa {
                assert(t[j] == s[j]);
                assert(s[pa] != s[j]);
            } else if j == pa && i != pb {
                assert(t[i] == s[i]);
                assert(s[pb] != s[i]);
            } else if j == pb && i != pa {
                assert(t[i] == s[i]);
                assert(s[pa] != s[i]);
            }
        }
        assert(t.no_duplicates());
        assert forall|x: u128| #[trigger] t.contains(x) <==> s.contains(x) by {
            if t.contains(x) {
                let j = choose|j: int| 0 <= j < t.len() && t[j] == x;
                if j == pa {
                    assert(s[pb] == x);
                } else if j == pb {
                    assert(s[pa] == x);
                } else {
                    assert(s[j] == x);
                }
            }
            if s.contains(x) {
                let j = choose|j: int| 0 <= j < s.len() && s[j] == x;
                if j == pa {
                    assert(t[pb] == x);
                } else if j == pb {
                    assert(t[pa] == x);
                } else {
                    assert(t[j] == x);
                }
            }
        }
        lemma_pos_unique(t, a, pb);
        lemma_pos_unique(t, b, pa);
        assert(swap_ids(t, a, b) =~= s);
    } else {
        assert(swap_ids(s, a, b) =~= s);
    }
}

/// Moving a Doing task down and then back up restores the Doing column: when
/// the first swap exchanged the entries at `c` and `c + 1` of the Doing list
/// (`c` the cursor's place in `a0`), the second gives back the cursor and the
/// synchronised explicit order of `a0`, and changes nothing else; so when the
/// explicit order of `a0` was already synchronised, it is restored as it was
/// and the board shows the Doing list it showed before.
pub proof fn lemma_doing_swap_round_trip(a0: App, a1: App, a2: App)
    requires
        a0.doing_order@.no_duplicates(),
        a0.cursor@[1] < usize::MAX,
        a0.cursor@[1] + 1 < a0.board_list(Column::Doing).len(),
        App::kanban_doing_swap_done(a0, a1, 1i32),
        a1.board_list(Column::Doing).len() == a0.board_list(Column::Doing).len(),
        a1.board_list(Column::Doing)[a0.cursor@[1] as int].id == a0.board_list(Column::Doing)[a0.cursor@[1] + 1].id,
        a1.board_list(Column::Doing)[a0.cursor@[1] + 1].id == a0.board_list(Column::Doing)[a0.cursor@[1] as int].id,
        App::kanban_doing_swap_done(a1, a2, -1i32),
    ensures
        a2.doing_order@ == a0.synced_order(),
        a2.cursor@ == a0.cursor@,
        a2 == (App { doing_order: a2.doing_order, cursor: a2.cursor, ..a0 }),
        a0.doing_order@ == a0.synced_order() ==> a2.doing_order@ == a0.doing_order@,
        a0.doing_order@ == a0.synced_order() ==> a2.board_list(Column::Doing) == a0.board_list(Column::Doing),
{
    let l0 = a0.board_list(Column::Doing);
    let c = a0.cursor@[1] as int;
    let o = a0.doing_order@;
    let cur = a0.doing_now();
    let kept = retained(o, cur, o.len() as int);
    let s = a0.synced_order();
    lemma_retained(o, cur, o.len() as int);
    lemma_append_missing(kept, cur, cur.len() as int);
    let ida = l0[c].id;
    let idb = l0[c + 1].id;
    assert(a1.doing_order@ == swap_ids(s, ida, idb));
    assert(a1.cursor@ == a0.cursor@.update(1, (c + 1) as usize));
    lemma_swap_twice(s, ida, idb);
    let t = a1.doing_order@;
    assert(a1.tasks == a0.tasks);
    assert(a1.doing_now() == cur);
    assert forall|x: u128| #[trigger] s.contains(x) implies cur.contains(x) by {
        if !kept.contains(x) {
        }
    }
    lemma_retained(t, cur, t.len() as int);
    assert forall|i: int| 0 <= i < t.len() implies cur.contains(#[trigger] t[i]) by {
        assert(t.contains(t[i]));
    }
    assert(t.subrange(0, t.len() as int) =~= t);
    assert(retained(t, cur, t.len() as int) == t);
    lemma_append_missing(t, cur, cur.len() as int);
    assert forall|i: int| 0 <= i < cur.len() implies t.contains(#[trigger] cur[i]) by {
        assert(s.contains(cur[i]));
    }
    assert(a1.synced_order() == t);
    assert(a1.cursor@[1] == c + 1);
    assert(a2.doing_order@ == swap_ids(t, ida, idb));
    assert(a2.cursor@ =~= a0.cursor@);
    if o == s {
        assert(a2.doing_order@ == o);
        let k2 = a2.board_core();
        let k0 = a0.board_core();
        let c2 = k2.board_candidates(Column::Doing);
        assert(c2 == k0.board_candidates(Column::Doing));
        assert(k2.tree_keys(c2) =~= k0.tree_keys(c2));
        assert forall|s1: Seq<TaskView>, r: Seq<TaskView>| k2.doing_result(s1, r) == k0.doing_result(s1, r) by {
            let ordered = present_in(k2.doing_order@, s1, k2.doing_order@.len() as int);
            assert(k2.doing_keys(s1, ordered) =~= k0.doing_keys(s1, ordered));
        }
        assert((|r: Seq<TaskView>| k2.board_spec(Column::Doing, r)) =~= (|r: Seq<TaskView>| k0.board_spec(Column::Doing, r)));
    }
}


/// Marking a task Done in the tree marks everything below it Done: after
/// `tree_toggle_done` turns task `id` Done at time `now`, each task found at
/// most as many levels below `id` as there are tasks (children,
/// grandchildren, and so on) is Done, unless it is also among the ancestors
/// of `id`, which only a cycle in the parent links allows.
pub proof fn lemma_toggle_done_marks_below(old: App, new: App, id: u128, now: i64, x: u128, d: nat)
    requires
        old.selected(old.focused_col) == Some(id),
        !(old.find(id) matches Some(t) && t.status == Status::Done),
        App::status_set(
            old,
            crate::status::cascade(crate::task::views(old.tasks@), id, Status::Done, now, old.tasks@.len() as nat),
            new,
            id,
            Status::Done,
            now,
        ),
        d <= old.tasks@.len(),
        crate::tree_laws::below(crate::task::views(old.tasks@), id, x, d),
        lookup(crate::task::views(old.tasks@), x) is Some,
        !climbs(crate::task::views(old.tasks@), parent_of(crate::task::views(old.tasks@), id), crate::task::views(old.tasks@).len()).contains(x),
    ensures
        crate::tree_laws::has_status(crate::task::views(new.tasks@), x, Status::Done),
{
    let ts = crate::task::views(old.tasks@);
    let n = old.tasks@.len() as nat;
    let pre = crate::status::cascade(ts, id, Status::Done, now, n);
    crate::tree_laws::lemma_cascade_marks_descendants(ts, id, Status::Done, now, n, x, d);
    let ts1 = crate::status::set_status(pre, id, Status::Done, now);
    crate::tree_laws::lemma_set_status_frame(pre, id, Status::Done, now);
    assert(crate::tree_laws::has_status(ts1, x, Status::Done));
    crate::tree_laws::lemma_same_tree_trans(ts, pre, ts1);
    assert(same_links(ts, ts1));
    assert(ts1.len() == ts.len());
    lemma_index_from_same_ids(ts, ts1, id, 0);
    lemma_first_index(ts, id);
    if first_index(ts, id) >= 0 {
        assert(ts1[first_index(ts, id)].parent_id == ts[first_index(ts, id)].parent_id);
    }
    assert(parent_of(ts1, id) == parent_of(ts, id));
    lemma_climbs_same_links(ts, ts1, parent_of(ts, id), ts.len());
    let r = propagate(ts1, parent_of(ts1, id), now, ts1.len());
    assert(r == crate::task::views(new.tasks@));
    lemma_propagate_frame(ts1, parent_of(ts1, id), now, ts1.len());
    let j = first_index(ts1, x);
    lemma_first_index(ts1, x);
    assert(ts1[j].id == x);
    assert(r[j] == ts1[j]);
    lemma_index_from_same_ids(ts1, r, x, 0);
}

} // verus!
