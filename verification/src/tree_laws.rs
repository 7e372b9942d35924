//! Properties of the tree operations: where an inserted task lands among its
//! siblings, and how far marking a task Done reaches below it.

use vstd::prelude::*;

use crate::board::{App, InsertPosition};
use crate::edit::{update_first, with_children};
use crate::insert::{lemma_lookup_insert, with_new_task};
use crate::kanban::pos_from;
use crate::status::{cascade, cascade_kids, derived_status, propagate, propagate_up, set_status};
use crate::task::{Status, TaskView, transitioned, views};
use crate::tree::{first_index, lemma_first_index, lookup};

verus! {

/// Same identifiers, parent links and children, entry by entry.
pub open spec fn same_tree(a: Seq<TaskView>, b: Seq<TaskView>) -> bool {
    &&& a.len() == b.len()
    &&& forall|j: int|
        0 <= j < a.len() ==> (#[trigger] a[j]).id == b[j].id && a[j].parent_id == b[j].parent_id
            && a[j].children == b[j].children
}

/// Two lists with the same identifiers find every identifier at the same place.
pub proof fn lemma_same_tree_index(a: Seq<TaskView>, b: Seq<TaskView>, id: u128)
    requires
        same_tree(a, b),
    ensures
        first_index(a, id) == first_index(b, id),
{
    lemma_first_index(a, id);
    lemma_first_index(b, id);
    let i = first_index(a, id);
    let j = first_index(b, id);
    if i >= 0 {
        assert(b[i].id == id);
        assert(j >= 0);
    }
    if j >= 0 {
        assert(a[j].id == id);
    }
    if i >= 0 && j >= 0 {
        if i < j {
            assert(b[i].id == id);
        }
        if j < i {
            assert(a[j].id == id);
        }
    }
}

/// Deriving statuses upward changes statuses and histories only.
pub proof fn lemma_propagate_same_tree(ts: Seq<TaskView>, cur: Option<u128>, now: i64, fuel: nat)
    ensures
        same_tree(ts, propagate(ts, cur, now, fuel)),
    decreases fuel,
{
    if fuel > 0 {
        if let Some(pid) = cur {
            let i = first_index(ts, pid);
            if 0 <= i < ts.len() {
                let d = derived_status(ts, ts[i].children);
                if ts[i].status != d {
                    let ts1 = ts.update(i, transitioned(ts[i], d, now));
                    lemma_propagate_same_tree(ts1, ts[i].parent_id, now, (fuel - 1) as nat);
                    assert(same_tree(ts, ts1));
                }
            }
        }
    }
}

proof fn lemma_pos_first(s: Seq<u128>, x: u128, q: int, i: int)
    requires
        0 <= i <= q < s.len(),
        s[q] == x,
        forall|k: int| 0 <= k < q ==> s[k] != x,
    ensures
        pos_from(s, x, i) == q,
    decreases q - i,
{
    if i < q {
        lemma_pos_first(s, x, q, i + 1);
    }
}

/// A task added after a sibling comes right after it: when `t` is added under
/// its parent after `a`, which first stands at place `q` among the parent's
/// children, the parent's children afterwards are the old ones with `t`
/// inserted at `q + 1`, so `a` is still at `q` and `t` directly follows it.
pub proof fn lemma_insert_after_sibling(old: App, new: App, t: TaskView, a: u128, q: int, now: i64)
    requires
        App::placed(old, new, t, InsertPosition::AfterSibling(a), now),
        t.parent_id is Some,
        t.parent_id->0 != t.id,
        lookup(views(old.tasks@), t.parent_id->0) is Some,
        0 <= q < lookup(views(old.tasks@), t.parent_id->0)->0.children.len(),
        lookup(views(old.tasks@), t.parent_id->0)->0.children[q] == a,
        forall|k: int| 0 <= k < q ==> lookup(views(old.tasks@), t.parent_id->0)->0.children[k] != a,
    ensures
        ({
            let kids = lookup(views(old.tasks@), t.parent_id->0)->0.children;
            &&& lookup(views(new.tasks@), t.parent_id->0) matches Some(np)
            &&& np.children == kids.insert(q + 1, t.id)
            &&& np.children[q] == a
            &&& np.children[q + 1] == t.id
        }),
{
    let ts = views(old.tasks@);
    let pid = t.parent_id->0;
    let kids = lookup(ts, pid)->0.children;
    let mid = choose|mid: App|
        {
            &&& mid == (App { tasks: mid.tasks, ..old })
            &&& views(mid.tasks@) == with_new_task(views(old.tasks@), t, InsertPosition::AfterSibling(a))
            &&& views(new.tasks@) == propagate_up(views(mid.tasks@), t.id, now)
            &&& new.cursor@ == App::followed(mid, crate::board::status_column(t.status), t.id)
            &&& new == (App { tasks: new.tasks, cursor: new.cursor, ..old })
        };
    lemma_first_index(ts, a);
    let at = crate::insert::child_insert_index(ts, pid, InsertPosition::AfterSibling(a));
    assert(0 <= at <= ts.len());
    let ts2 = ts.insert(at, t);
    lemma_lookup_insert(ts, at, t, pid);
    lemma_pos_first(kids, a, q, 0);
    let f = |x: TaskView| with_children(x, x.children.insert(q + 1, t.id));
    assert(crate::insert::child_slot(ts, pid, InsertPosition::AfterSibling(a)) == q + 1);
    let r1 = update_first(ts2, pid, f);
    assert(views(mid.tasks@) == r1);
    let i2 = first_index(ts2, pid);
    lemma_first_index(ts2, pid);
    lemma_first_index(ts, pid);
    assert(0 <= i2 < ts2.len());
    assert(r1 == ts2.update(i2, f(ts2[i2])));
    assert(forall|j: int| 0 <= j < r1.len() ==> (#[trigger] r1[j]).id == ts2[j].id);
    lemma_first_index(r1, pid);
    assert(first_index(r1, pid) == i2) by {
        let j = first_index(r1, pid);
        assert(r1[i2].id == pid);
        if j < i2 {
            assert(ts2[j].id == pid);
        }
    }
    let r = views(new.tasks@);
    lemma_propagate_same_tree(r1, crate::tree::parent_of(r1, t.id), now, r1.len());
    lemma_same_tree_index(r1, r, pid);
    assert(r[i2].children == r1[i2].children);
    assert(r1[i2].children == kids.insert(q + 1, t.id));
}


/// Task `x` is found and has status `s`.
pub open spec fn has_status(ts: Seq<TaskView>, x: u128, s: Status) -> bool {
    lookup(ts, x) matches Some(c) && c.status == s
}

/// `x` is found at most `depth` levels below `root`, following the children
/// lists.
pub open spec fn below(ts: Seq<TaskView>, root: u128, x: u128, depth: nat) -> bool
    decreases depth,
{
    if depth == 0 {
        false
    } else {
        match lookup(ts, root) {
            Some(r) => exists|k: int|
                0 <= k < r.children.len() && (#[trigger] r.children[k] == x || below(
                    ts,
                    r.children[k],
                    x,
                    (depth - 1) as nat,
                )),
            None => false,
        }
    }
}

proof fn lemma_below_same_tree(a: Seq<TaskView>, b: Seq<TaskView>, root: u128, x: u128, depth: nat)
    requires
        same_tree(a, b),
    ensures
        below(a, root, x, depth) == below(b, root, x, depth),
    decreases depth,
{
    if depth > 0 {
        lemma_same_tree_index(a, b, root);
        lemma_first_index(a, root);
        let i = first_index(a, root);
        if i >= 0 {
            let kids = a[i].children;
            assert(b[i].children == kids);
            assert forall|k: int| 0 <= k < kids.len() implies below(a, kids[k], x, (depth - 1) as nat) == below(
                b,
                kids[k],
                x,
                (depth - 1) as nat,
            ) by {
                lemma_below_same_tree(a, b, kids[k], x, (depth - 1) as nat);
            }
        }
    }
}

pub proof fn lemma_has_status_same_tree(a: Seq<TaskView>, b: Seq<TaskView>, x: u128)
    requires
        same_tree(a, b),
    ensures
        lookup(a, x) is Some <==> lookup(b, x) is Some,
{
    lemma_same_tree_index(a, b, x);
}

pub proof fn lemma_set_status_frame(ts: Seq<TaskView>, id: u128, s: Status, now: i64)
    ensures
        same_tree(ts, set_status(ts, id, s, now)),
        forall|x: u128| has_status(ts, x, s) ==> #[trigger] has_status(set_status(ts, id, s, now), x, s),
        lookup(ts, id) is Some ==> has_status(set_status(ts, id, s, now), id, s),
{
    let r = set_status(ts, id, s, now);
    lemma_first_index(ts, id);
    assert(same_tree(ts, r));
    assert forall|x: u128| has_status(ts, x, s) implies #[trigger] has_status(r, x, s) by {
        lemma_same_tree_index(ts, r, x);
        lemma_first_index(ts, x);
        let j = first_index(ts, x);
        let i = first_index(ts, id);
        if 0 <= i < ts.len() {
            if j == i {
                assert(r[j].status == s);
            } else {
                assert(r[j] == ts[j]);
            }
        }
    }
    lemma_same_tree_index(ts, r, id);
}

pub proof fn lemma_same_tree_trans(a: Seq<TaskView>, b: Seq<TaskView>, c: Seq<TaskView>)
    requires
        same_tree(a, b),
        same_tree(b, c),
    ensures
        same_tree(a, c),
{
}

proof fn lemma_cascade_frame(ts: Seq<TaskView>, id: u128, s: Status, now: i64, fuel: nat)
    ensures
        same_tree(ts, cascade(ts, id, s, now, fuel)),
        forall|x: u128| has_status(ts, x, s) ==> #[trigger] has_status(cascade(ts, id, s, now, fuel), x, s),
    decreases fuel, 0int, 0int,
{
    if fuel > 0 {
        let kids = match lookup(ts, id) {
            Some(t) => t.children,
            None => Seq::empty(),
        };
        lemma_cascade_kids_frame(ts, kids, 0, s, now, (fuel - 1) as nat);
    }
}

proof fn lemma_cascade_kids_frame(ts: Seq<TaskView>, kids: Seq<u128>, i: int, s: Status, now: i64, fuel: nat)
    ensures
        same_tree(ts, cascade_kids(ts, kids, i, s, now, fuel)),
        forall|x: u128| has_status(ts, x, s) ==> #[trigger] has_status(cascade_kids(ts, kids, i, s, now, fuel), x, s),
    decreases fuel, 1int, kids.len() - i,
{
    if 0 <= i < kids.len() {
        let ts1 = set_status(ts, kids[i], s, now);
        let ts2 = cascade(ts1, kids[i], s, now, fuel);
        let r = cascade_kids(ts2, kids, i + 1, s, now, fuel);
        lemma_set_status_frame(ts, kids[i], s, now);
        lemma_cascade_frame(ts1, kids[i], s, now, fuel);
        lemma_cascade_kids_frame(ts2, kids, i + 1, s, now, fuel);
        lemma_same_tree_trans(ts, ts1, ts2);
        lemma_same_tree_trans(ts, ts2, r);
        assert forall|x: u128| has_status(ts, x, s) implies #[trigger] has_status(r, x, s) by {
            assert(has_status(ts1, x, s));
            assert(has_status(ts2, x, s));
        }
    }
}

proof fn lemma_cascade_reaches(ts: Seq<TaskView>, id: u128, s: Status, now: i64, fuel: nat)
    ensures
        forall|x: u128, d: nat|
            d <= fuel && #[trigger] below(ts, id, x, d) && lookup(ts, x) is Some ==> has_status(
                cascade(ts, id, s, now, fuel),
                x,
                s,
            ),
    decreases fuel, 0int, 0int,
{
    if fuel > 0 {
        let kids = match lookup(ts, id) {
            Some(t) => t.children,
            None => Seq::empty(),
        };
        let f = (fuel - 1) as nat;
        lemma_cascade_kids_reach(ts, kids, 0, s, now, f);
        let r = cascade(ts, id, s, now, fuel);
        assert forall|x: u128, d: nat|
            d <= fuel && #[trigger] below(ts, id, x, d) && lookup(ts, x) is Some implies has_status(r, x, s) by {
            let k = choose|k: int|
                0 <= k < kids.len() && (#[trigger] kids[k] == x || below(ts, kids[k], x, (d - 1) as nat));
            if kids[k] != x {
                assert(below(ts, kids[k], x, (d - 1) as nat));
            }
        }
    }
}

proof fn lemma_cascade_kids_reach(ts: Seq<TaskView>, kids: Seq<u128>, i: int, s: Status, now: i64, fuel: nat)
    requires
        0 <= i,
    ensures
        forall|k: int| i <= k < kids.len() && lookup(ts, #[trigger] kids[k]) is Some ==> has_status(
            cascade_kids(ts, kids, i, s, now, fuel),
            kids[k],
            s,
        ),
        forall|k: int, x: u128, d: nat|
            i <= k < kids.len() && d <= fuel && #[trigger] below(ts, kids[k], x, d) && lookup(ts, x) is Some
                ==> has_status(cascade_kids(ts, kids, i, s, now, fuel), x, s),
    decreases fuel, 1int, kids.len() - i,
{
    if i < kids.len() {
        let ts1 = set_status(ts, kids[i], s, now);
        let ts2 = cascade(ts1, kids[i], s, now, fuel);
        let r = cascade_kids(ts2, kids, i + 1, s, now, fuel);
        lemma_set_status_frame(ts, kids[i], s, now);
        lemma_cascade_frame(ts1, kids[i], s, now, fuel);
        lemma_cascade_kids_frame(ts2, kids, i + 1, s, now, fuel);
        lemma_cascade_reaches(ts1, kids[i], s, now, fuel);
        lemma_cascade_kids_reach(ts2, kids, i + 1, s, now, fuel);
        lemma_same_tree_trans(ts, ts1, ts2);
        assert forall|k: int| i <= k < kids.len() && lookup(ts, #[trigger] kids[k]) is Some implies has_status(
            r,
            kids[k],
            s,
        ) by {
            if k == i {
                assert(has_status(ts1, kids[i], s));
                assert(has_status(ts2, kids[i], s));
            } else {
                lemma_has_status_same_tree(ts, ts2, kids[k]);
            }
        }
        assert forall|k: int, x: u128, d: nat|
            i <= k < kids.len() && d <= fuel && #[trigger] below(ts, kids[k], x, d) && lookup(ts, x) is Some
                implies has_status(r, x, s) by {
            lemma_has_status_same_tree(ts, ts1, x);
            lemma_has_status_same_tree(ts, ts2, x);
            if k == i {
                lemma_below_same_tree(ts, ts1, kids[i], x, d);
                assert(has_status(ts2, x, s));
            } else {
                lemma_below_same_tree(ts, ts2, kids[k], x, d);
            }
        }
    }
}

/// Marking a task with a status reaches every task below it: after
/// `cascade_status_down` from `id` with `fuel` levels, each task found at
/// most `fuel` levels below `id` (children, grandchildren, and so on) has
/// that status, and the tree's shape is unchanged.
pub proof fn lemma_cascade_marks_descendants(ts: Seq<TaskView>, id: u128, s: Status, now: i64, fuel: nat, x: u128, d: nat)
    requires
        d <= fuel,
        below(ts, id, x, d),
        lookup(ts, x) is Some,
    ensures
        has_status(cascade(ts, id, s, now, fuel), x, s),
        same_tree(ts, cascade(ts, id, s, now, fuel)),
{
    lemma_cascade_reaches(ts, id, s, now, fuel);
    lemma_cascade_frame(ts, id, s, now, fuel);
}

} // verus!
