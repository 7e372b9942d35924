//! Reading the task forest held in a `Vec<Task>`: lookup by identifier,
//! parent chains and depth-first walks.

use vstd::prelude::*;

use crate::task::{Task, TaskView, views};

verus! {

/// Index of the first task at or after `i` whose identifier is `id`, or -1.
pub open spec fn index_from(ts: Seq<TaskView>, id: u128, i: int) -> int
    decreases ts.len() - i,
    when 0 <= i
{
    if i >= ts.len() {
        -1
    } else if ts[i].id == id {
        i
    } else {
        index_from(ts, id, i + 1)
    }
}

/// Index of the first task whose identifier is `id`, or -1 when there is none.
pub open spec fn first_index(ts: Seq<TaskView>, id: u128) -> int {
    index_from(ts, id, 0)
}

/// The first task whose identifier is `id`.
pub open spec fn lookup(ts: Seq<TaskView>, id: u128) -> Option<TaskView> {
    let i = first_index(ts, id);
    if i >= 0 {
        Some(ts[i])
    } else {
        None
    }
}

pub open spec fn has_id(ts: Seq<TaskView>, id: u128) -> bool {
    exists|i: int| 0 <= i < ts.len() && ts[i].id == id
}

pub proof fn lemma_index_from(ts: Seq<TaskView>, id: u128, i: int)
    requires
        0 <= i,
    ensures
        -1 <= index_from(ts, id, i) < ts.len(),
        index_from(ts, id, i) >= 0 ==> i <= index_from(ts, id, i) && ts[index_from(ts, id, i)].id
            == id,
        index_from(ts, id, i) >= 0 ==> forall|j: int|
            i <= j < index_from(ts, id, i) ==> ts[j].id != id,
        index_from(ts, id, i) == -1 ==> forall|j: int| i <= j < ts.len() ==> ts[j].id != id,
    decreases ts.len() - i,
{
    if i < ts.len() && ts[i].id != id {
        lemma_index_from(ts, id, i + 1);
    }
}

/// What `first_index` says: the first position holding `id`, or -1 when none does.
pub proof fn lemma_first_index(ts: Seq<TaskView>, id: u128)
    ensures
        -1 <= first_index(ts, id) < ts.len(),
        first_index(ts, id) >= 0 ==> ts[first_index(ts, id)].id == id,
        first_index(ts, id) >= 0 ==> forall|j: int|
            0 <= j < first_index(ts, id) ==> ts[j].id != id,
        first_index(ts, id) == -1 <==> !has_id(ts, id),
{
    lemma_index_from(ts, id, 0);
}

/// Position of the first task with identifier `id`.
pub fn find_index(tasks: &Vec<Task>, id: u128) -> (r: Option<usize>)
    ensures
        match r {
            Some(i) => i as int == first_index(views(tasks@), id),
            None => first_index(views(tasks@), id) == -1,
        },
{
    let mut i: usize = 0;
    while i < tasks.len()
        invariant
            i <= views(tasks@).len(),
            index_from(views(tasks@), id, 0) == index_from(views(tasks@), id, i as int),
        decreases views(tasks@).len() - i,
    {
        if tasks[i].id == id {
            return Some(i);
        }
        i = i + 1;
    }
    None
}


/// Whether `x` occurs in `v`.
pub fn contains_id(v: &Vec<u128>, x: u128) -> (r: bool)
    ensures
        r == v@.contains(x),
{
    let mut i: usize = 0;
    while i < v.len()
        invariant
            i <= v@.len(),
            forall|j: int| 0 <= j < i ==> v@[j] != x,
        decreases v@.len() - i,
    {
        if v[i] == x {
            return true;
        }
        i = i + 1;
    }
    false
}

/// Depth-first preorder from `id`: a task already listed in `acc`, or absent,
/// adds nothing; otherwise it is listed and then each child that belongs to
/// `inc` is visited in turn. `fuel` bounds the depth of the walk.
pub open spec fn dfs_visit(ts: Seq<TaskView>, inc: Seq<u128>, id: u128, acc: Seq<u128>, fuel: nat) -> Seq<
    u128,
>
    decreases fuel, 0int, 0int,
{
    if fuel == 0 || acc.contains(id) || first_index(ts, id) < 0 {
        acc
    } else {
        dfs_kids(ts, inc, ts[first_index(ts, id)].children, 0, acc.push(id), (fuel - 1) as nat)
    }
}

/// Visits, in order, the children `kids[i..]` that belong to `inc`.
pub open spec fn dfs_kids(
    ts: Seq<TaskView>,
    inc: Seq<u128>,
    kids: Seq<u128>,
    i: int,
    acc: Seq<u128>,
    fuel: nat,
) -> Seq<u128>
    decreases fuel, 1int, kids.len() - i,
{
    if i < 0 || i >= kids.len() {
        acc
    } else {
        let acc2 = if inc.contains(kids[i]) {
            dfs_visit(ts, inc, kids[i], acc, fuel)
        } else {
            acc
        };
        dfs_kids(ts, inc, kids, i + 1, acc2, fuel)
    }
}

/// Walks the tasks from position `k` on, starting a depth-first visit at every
/// task of `inc` that is not yet listed and whose parent is not in `inc`.
pub open spec fn forest_walk(ts: Seq<TaskView>, inc: Seq<u128>, k: int, acc: Seq<u128>) -> Seq<u128>
    decreases ts.len() - k,
    when 0 <= k
{
    if k >= ts.len() {
        acc
    } else {
        let t = ts[k];
        let skip = !inc.contains(t.id) || acc.contains(t.id) || (t.parent_id is Some && inc.contains(
            t.parent_id->0,
        ));
        let acc2 = if skip {
            acc
        } else {
            dfs_visit(ts, inc, t.id, acc, ts.len())
        };
        forest_walk(ts, inc, k + 1, acc2)
    }
}

/// Identifiers of the tasks of `inc`, each subtree listed right after its root,
/// in the order in which the tree is shown.
pub open spec fn forest_order(ts: Seq<TaskView>, inc: Seq<u128>) -> Seq<u128> {
    forest_walk(ts, inc, 0, Seq::empty())
}

/// Appends to `acc` the depth-first preorder of the members of `inc` below `id`.
pub fn add_subtree(tasks: &Vec<Task>, inc: &Vec<u128>, id: u128, acc: &mut Vec<u128>, fuel: usize)
    ensures
        final(acc)@ == dfs_visit(views(tasks@), inc@, id, old(acc)@, fuel as nat),
    decreases fuel,
{
    if fuel == 0 {
        return;
    }
    if contains_id(acc, id) {
        return;
    }
    let idx = match find_index(tasks, id) {
        Some(i) => i,
        None => return,
    };
    proof {
        lemma_first_index(views(tasks@), id);
    }
    acc.push(id);
    let ghost acc_start = acc@;
    let kids = &tasks[idx].children;
    let mut i: usize = 0;
    while i < kids.len()
        invariant
            i <= kids@.len(),
            kids@ == views(tasks@)[first_index(views(tasks@), id)].children,
            fuel > 0,
            dfs_kids(views(tasks@), inc@, kids@, 0, acc_start, (fuel - 1) as nat) == dfs_kids(
                views(tasks@),
                inc@,
                kids@,
                i as int,
                acc@,
                (fuel - 1) as nat,
            ),
        decreases kids@.len() - i,
    {
        let c = kids[i];
        if contains_id(inc, c) {
            add_subtree(tasks, inc, c, acc, fuel - 1);
        }
        i = i + 1;
    }
}

/// Identifiers of the members of `inc` in the order in which the tree shows them.
pub fn forest_ids(tasks: &Vec<Task>, inc: &Vec<u128>) -> (r: Vec<u128>)
    ensures
        r@ == forest_order(views(tasks@), inc@),
{
    let mut acc: Vec<u128> = Vec::new();
    let mut k: usize = 0;
    while k < tasks.len()
        invariant
            k <= views(tasks@).len(),
            forest_order(views(tasks@), inc@) == forest_walk(views(tasks@), inc@, k as int, acc@),
        decreases views(tasks@).len() - k,
    {
        let t = &tasks[k];
        let mut skip = !contains_id(inc, t.id) || contains_id(&acc, t.id);
        if !skip {
            match t.parent_id {
                Some(p) => {
                    if contains_id(inc, p) {
                        skip = true;
                    }
                },
                None => {},
            }
        }
        if !skip {
            add_subtree(tasks, inc, t.id, &mut acc, tasks.len());
        }
        k = k + 1;
    }
    acc
}


/// The parent recorded on the first task with identifier `id`.
pub open spec fn parent_of(ts: Seq<TaskView>, id: u128) -> Option<u128> {
    match lookup(ts, id) {
        Some(t) => t.parent_id,
        None => None,
    }
}

/// The parent recorded on the first task with identifier `id`.
pub fn parent_id_of(tasks: &Vec<Task>, id: u128) -> (r: Option<u128>)
    ensures
        r == parent_of(views(tasks@), id),
{
    match find_index(tasks, id) {
        Some(i) => {
            proof {
                lemma_first_index(views(tasks@), id);
            }
            tasks[i].parent_id
        },
        None => None,
    }
}

/// Number of parent links followed from `id` before reaching a task without a
/// recorded parent, or a parent that is not in the list; at most `fuel` links.
pub open spec fn depth_of(ts: Seq<TaskView>, id: u128, fuel: nat) -> nat
    decreases fuel,
{
    if fuel == 0 {
        0
    } else {
        match parent_of(ts, id) {
            Some(p) => 1 + depth_of(ts, p, (fuel - 1) as nat),
            None => 0,
        }
    }
}

/// The task reached from `id` by following parent links to the top (at most `fuel` links).
pub open spec fn root_of(ts: Seq<TaskView>, id: u128, fuel: nat) -> u128
    decreases fuel,
{
    if fuel == 0 {
        id
    } else {
        match parent_of(ts, id) {
            Some(p) => root_of(ts, p, (fuel - 1) as nat),
            None => id,
        }
    }
}

/// Whether `anc` is reached from `id` by following parent links (at most `fuel` links).
pub open spec fn descends_from(ts: Seq<TaskView>, id: u128, anc: u128, fuel: nat) -> bool
    decreases fuel,
{
    if fuel == 0 {
        false
    } else {
        match parent_of(ts, id) {
            None => false,
            Some(p) => p == anc || descends_from(ts, p, anc, (fuel - 1) as nat),
        }
    }
}

/// The task `steps` parent links above `id`, if each link exists.
pub open spec fn ancestor_steps(ts: Seq<TaskView>, id: u128, steps: nat) -> Option<u128>
    decreases steps,
{
    if steps == 0 {
        Some(id)
    } else {
        match parent_of(ts, id) {
            Some(p) => ancestor_steps(ts, p, (steps - 1) as nat),
            None => None,
        }
    }
}

/// Depth of `id`: the number of parent links above it.
pub fn task_depth(tasks: &Vec<Task>, id: u128) -> (d: usize)
    ensures
        d == depth_of(views(tasks@), id, views(tasks@).len()),
{
    let mut depth: usize = 0;
    let mut current = id;
    let mut fuel: usize = tasks.len();
    while fuel > 0
        invariant
            fuel <= views(tasks@).len(),
            views(tasks@).len() <= usize::MAX,
            depth + fuel <= views(tasks@).len(),
            depth_of(views(tasks@), id, views(tasks@).len() as nat) == depth + depth_of(views(tasks@), current, fuel as nat),
        decreases fuel,
    {
        match parent_id_of(tasks, current) {
            Some(p) => {
                depth = depth + 1;
                current = p;
                fuel = fuel - 1;
            },
            None => {
                return depth;
            },
        }
    }
    depth
}

/// The top of the parent chain above `id`.
pub fn root_task_id(tasks: &Vec<Task>, id: u128) -> (r: u128)
    ensures
        r == root_of(views(tasks@), id, views(tasks@).len() as nat),
{
    let mut current = id;
    let mut fuel: usize = tasks.len();
    while fuel > 0
        invariant
            root_of(views(tasks@), id, views(tasks@).len() as nat) == root_of(views(tasks@), current, fuel as nat),
        decreases fuel,
    {
        match parent_id_of(tasks, current) {
            Some(p) => {
                current = p;
                fuel = fuel - 1;
            },
            None => {
                return current;
            },
        }
    }
    current
}

/// Whether `ancestor_id` lies on the parent chain above `id`.
pub fn is_descendant_of(tasks: &Vec<Task>, id: u128, ancestor_id: u128) -> (r: bool)
    ensures
        r == descends_from(views(tasks@), id, ancestor_id, views(tasks@).len() as nat),
{
    let mut current = id;
    let mut fuel: usize = tasks.len();
    while fuel > 0
        invariant
            descends_from(views(tasks@), id, ancestor_id, views(tasks@).len() as nat) == descends_from(
                views(tasks@),
                current,
                ancestor_id,
                fuel as nat,
            ),
        decreases fuel,
    {
        match parent_id_of(tasks, current) {
            None => {
                return false;
            },
            Some(p) => {
                if p == ancestor_id {
                    return true;
                }
                current = p;
                fuel = fuel - 1;
            },
        }
    }
    false
}

/// The ancestor of `id` that stands at depth `target_depth`, when `id` is at
/// least that deep.
pub fn ancestor_at_depth(tasks: &Vec<Task>, id: u128, target_depth: usize) -> (r: Option<u128>)
    ensures
        r == (if depth_of(views(tasks@), id, views(tasks@).len() as nat) >= target_depth {
            ancestor_steps(
                views(tasks@),
                id,
                (depth_of(views(tasks@), id, views(tasks@).len() as nat) - target_depth) as nat,
            )
        } else {
            None
        }),
{
    let mut current = id;
    let mut depth = task_depth(tasks, id);
    let ghost d0 = depth as nat;
    while depth > target_depth
        invariant
            d0 == depth_of(views(tasks@), id, views(tasks@).len() as nat),
            target_depth <= depth <= d0 || (depth == d0 && d0 < target_depth),
            ancestor_steps(views(tasks@), id, (d0 - target_depth) as nat) == ancestor_steps(
                views(tasks@),
                current,
                (depth - target_depth) as nat,
            ) || d0 < target_depth,
        decreases depth,
    {
        match parent_id_of(tasks, current) {
            Some(p) => {
                current = p;
            },
            None => {
                return None;
            },
        }
        depth = depth - 1;
    }
    if depth == target_depth {
        Some(current)
    } else {
        None
    }
}


/// Index of the last task at or before `i` whose identifier is `id`, or -1.
pub open spec fn last_index_upto(ts: Seq<TaskView>, id: u128, i: int) -> int
    decreases i + 1,
    when i >= -1
{
    if i < 0 {
        -1
    } else if i < ts.len() && ts[i].id == id {
        i
    } else {
        last_index_upto(ts, id, i - 1)
    }
}

/// Index of the last task whose identifier is `id`, or -1.
pub open spec fn last_index(ts: Seq<TaskView>, id: u128) -> int {
    last_index_upto(ts, id, ts.len() - 1)
}

pub proof fn lemma_last_index_upto(ts: Seq<TaskView>, id: u128, i: int)
    requires
        -1 <= i < ts.len(),
    ensures
        -1 <= last_index_upto(ts, id, i) <= i,
        last_index_upto(ts, id, i) >= 0 ==> ts[last_index_upto(ts, id, i)].id == id,
        last_index_upto(ts, id, i) == -1 ==> forall|j: int| 0 <= j <= i ==> ts[j].id != id,
    decreases i + 1,
{
    if i >= 0 && ts[i].id != id {
        lemma_last_index_upto(ts, id, i - 1);
    }
}

/// Position of the last task with identifier `id`.
pub fn find_last_index(tasks: &Vec<Task>, id: u128) -> (r: Option<usize>)
    ensures
        match r {
            Some(i) => i as int == last_index(views(tasks@), id) && i < views(tasks@).len(),
            None => last_index(views(tasks@), id) == -1,
        },
{
    let mut i: usize = tasks.len();
    while i > 0
        invariant
            i <= views(tasks@).len(),
            last_index(views(tasks@), id) == last_index_upto(views(tasks@), id, i - 1),
        decreases i,
    {
        if tasks[i - 1].id == id {
            return Some(i - 1);
        }
        i = i - 1;
    }
    None
}

/// Whether a walk follows child `c`: every child present in the list, or,
/// with a filter, every child the filter lists.
pub open spec fn walk_child(ts: Seq<TaskView>, filter: Option<Seq<u128>>, c: u128) -> bool {
    match filter {
        None => last_index(ts, c) >= 0,
        Some(v) => v.contains(c),
    }
}

/// Whether a walk starts at task `t`: every task without a parent, or, with a
/// filter, every listed task whose parent is not listed.
pub open spec fn walk_root(filter: Option<Seq<u128>>, t: TaskView) -> bool {
    match filter {
        None => t.parent_id is None,
        Some(v) => v.contains(t.id) && (t.parent_id is None || !v.contains(t.parent_id->0)),
    }
}

/// Preorder from `id` following the children the walk follows, with no check
/// for tasks met twice; a task's children are read from the last entry with
/// its identifier. `fuel` bounds the depth.
pub open spec fn full_visit(ts: Seq<TaskView>, filter: Option<Seq<u128>>, id: u128, fuel: nat) -> Seq<u128>
    decreases fuel, 0int, 0int,
{
    if fuel == 0 {
        Seq::empty()
    } else if last_index(ts, id) < 0 {
        seq![id]
    } else {
        seq![id] + full_kids(ts, filter, ts[last_index(ts, id)].children, 0, (fuel - 1) as nat)
    }
}

pub open spec fn full_kids(ts: Seq<TaskView>, filter: Option<Seq<u128>>, kids: Seq<u128>, i: int, fuel: nat) -> Seq<u128>
    decreases fuel, 1int, kids.len() - i,
{
    if i < 0 || i >= kids.len() {
        Seq::empty()
    } else {
        let here = if walk_child(ts, filter, kids[i]) {
            full_visit(ts, filter, kids[i], fuel)
        } else {
            Seq::<u128>::empty()
        };
        here + full_kids(ts, filter, kids, i + 1, fuel)
    }
}

/// Preorder of the forest: a visit from every task where a walk starts, in list order.
pub open spec fn full_walk(ts: Seq<TaskView>, filter: Option<Seq<u128>>, k: int) -> Seq<u128>
    decreases ts.len() - k,
    when 0 <= k
{
    if k >= ts.len() {
        Seq::empty()
    } else {
        let here = if walk_root(filter, ts[k]) {
            full_visit(ts, filter, ts[k].id, ts.len())
        } else {
            Seq::<u128>::empty()
        };
        here + full_walk(ts, filter, k + 1)
    }
}

/// Preorder of the whole forest, ignoring every filter.
pub open spec fn full_order(ts: Seq<TaskView>) -> Seq<u128> {
    full_walk(ts, None, 0)
}

/// Preorder of the tasks listed in `vis` (the rows of the tree view, unfolded).
pub open spec fn visible_walk_order(ts: Seq<TaskView>, vis: Seq<u128>) -> Seq<u128> {
    full_walk(ts, Some(vis), 0)
}

/// Every row of a filtered visit from `id` is `id` itself or listed by the filter.
pub proof fn lemma_visit_listed(ts: Seq<TaskView>, v: Seq<u128>, id: u128, fuel: nat)
    ensures
        forall|j: int|
            0 <= j < full_visit(ts, Some(v), id, fuel).len() ==> (#[trigger] full_visit(ts, Some(v), id, fuel)[j]
                == id || v.contains(full_visit(ts, Some(v), id, fuel)[j])),
    decreases fuel, 0int, 0int,
{
    if fuel > 0 && last_index(ts, id) >= 0 {
        let kids = ts[last_index(ts, id)].children;
        let f1 = (fuel - 1) as nat;
        lemma_kids_listed(ts, v, kids, 0, f1);
        let r = full_visit(ts, Some(v), id, fuel);
        let k = full_kids(ts, Some(v), kids, 0, f1);
        assert forall|j: int| 0 <= j < r.len() implies (r[j] == id || v.contains(r[j])) by {
            if j > 0 {
                assert(r[j] == k[j - 1]);
            }
        }
    }
}

/// Every row of a filtered visit of the children `kids[i..]` is listed by the filter.
pub proof fn lemma_kids_listed(ts: Seq<TaskView>, v: Seq<u128>, kids: Seq<u128>, i: int, fuel: nat)
    ensures
        forall|j: int|
            0 <= j < full_kids(ts, Some(v), kids, i, fuel).len() ==> v.contains(
                #[trigger] full_kids(ts, Some(v), kids, i, fuel)[j],
            ),
    decreases fuel, 1int, kids.len() - i,
{
    if 0 <= i < kids.len() {
        lemma_kids_listed(ts, v, kids, i + 1, fuel);
        let rest = full_kids(ts, Some(v), kids, i + 1, fuel);
        let r = full_kids(ts, Some(v), kids, i, fuel);
        if walk_child(ts, Some(v), kids[i]) {
            lemma_visit_listed(ts, v, kids[i], fuel);
            let here = full_visit(ts, Some(v), kids[i], fuel);
            assert forall|j: int| 0 <= j < r.len() implies v.contains(r[j]) by {
                if j < here.len() {
                    assert(r[j] == here[j]);
                } else {
                    assert(r[j] == rest[j - here.len()]);
                }
            }
        } else {
            assert(r =~= rest);
        }
    }
}

/// Every row of a filtered walk is listed by the filter.
pub proof fn lemma_walk_listed(ts: Seq<TaskView>, v: Seq<u128>, k: int)
    requires
        0 <= k,
    ensures
        forall|j: int|
            0 <= j < full_walk(ts, Some(v), k).len() ==> v.contains(#[trigger] full_walk(ts, Some(v), k)[j]),
    decreases ts.len() - k,
{
    if k < ts.len() {
        lemma_walk_listed(ts, v, k + 1);
        let rest = full_walk(ts, Some(v), k + 1);
        let r = full_walk(ts, Some(v), k);
        if walk_root(Some(v), ts[k]) {
            lemma_visit_listed(ts, v, ts[k].id, ts.len() as nat);
            let here = full_visit(ts, Some(v), ts[k].id, ts.len() as nat);
            assert forall|j: int| 0 <= j < r.len() implies v.contains(r[j]) by {
                if j < here.len() {
                    assert(r[j] == here[j]);
                } else {
                    assert(r[j] == rest[j - here.len()]);
                }
            }
        } else {
            assert(r =~= rest);
        }
    }
}

fn walk_follows(tasks: &Vec<Task>, filter: &Option<Vec<u128>>, c: u128) -> (r: bool)
    ensures
        r == walk_child(views(tasks@), match filter { Some(v) => Some(v@), None => None }, c),
{
    match filter {
        None => find_last_index(tasks, c).is_some(),
        Some(v) => contains_id(v, c),
    }
}

fn full_visit_into(tasks: &Vec<Task>, filter: &Option<Vec<u128>>, id: u128, acc: &mut Vec<u128>, fuel: usize)
    ensures
        final(acc)@ == old(acc)@ + full_visit(views(tasks@), match filter { Some(v) => Some(v@), None => None }, id, fuel as nat),
    decreases fuel,
{
    let ghost fl = match filter { Some(v) => Some(v@), None => None::<Seq<u128>> };
    if fuel == 0 {
        proof {
            assert(old(acc)@ + Seq::<u128>::empty() =~= old(acc)@);
        }
        return;
    }
    acc.push(id);
    match find_last_index(tasks, id) {
        None => {
            proof {
                assert(old(acc)@ + seq![id] =~= old(acc)@.push(id));
            }
        },
        Some(li) => {
            let kids = &tasks[li].children;
            let ghost start = acc@;
            let ghost f1 = (fuel - 1) as nat;
            let mut i: usize = 0;
            while i < kids.len()
                invariant
                    i <= kids@.len(),
                    fuel > 0,
                    f1 == fuel - 1,
                    fl == (match filter { Some(v) => Some(v@), None => None::<Seq<u128>> }),
                    kids@ == views(tasks@)[last_index(views(tasks@), id)].children,
                    start + full_kids(views(tasks@), fl, kids@, 0, f1) =~= acc@ + full_kids(
                        views(tasks@),
                        fl,
                        kids@,
                        i as int,
                        f1,
                    ),
                decreases kids@.len() - i,
            {
                let c = kids[i];
                let ghost before = acc@;
                if walk_follows(tasks, filter, c) {
                    full_visit_into(tasks, filter, c, acc, fuel - 1);
                }
                proof {
                    let here = if walk_child(views(tasks@), fl, c) {
                        full_visit(views(tasks@), fl, c, f1)
                    } else {
                        Seq::<u128>::empty()
                    };
                    assert(full_kids(views(tasks@), fl, kids@, i as int, f1) == here + full_kids(
                        views(tasks@),
                        fl,
                        kids@,
                        i + 1,
                        f1,
                    ));
                    assert(acc@ =~= before + here);
                    assert(before + (here + full_kids(views(tasks@), fl, kids@, i + 1, f1)) =~= (before + here)
                        + full_kids(views(tasks@), fl, kids@, i + 1, f1));
                }
                i = i + 1;
            }
            proof {
                assert(full_kids(views(tasks@), fl, kids@, i as int, f1) =~= Seq::<u128>::empty());
                assert(start =~= old(acc)@ + seq![id]);
                assert(old(acc)@ + (seq![id] + full_kids(views(tasks@), fl, kids@, 0, f1)) =~= start
                    + full_kids(views(tasks@), fl, kids@, 0, f1));
            }
        },
    }
}

fn starts_walk(filter: &Option<Vec<u128>>, t: &Task) -> (r: bool)
    ensures
        r == walk_root(match filter { Some(v) => Some(v@), None => None }, t@),
{
    match filter {
        None => t.parent_id.is_none(),
        Some(v) => {
            contains_id(v, t.id) && match t.parent_id {
                None => true,
                Some(p) => !contains_id(v, p),
            }
        },
    }
}

/// Preorder of the forest from every task where a walk starts.
pub fn walk_ids(tasks: &Vec<Task>, filter: &Option<Vec<u128>>) -> (r: Vec<u128>)
    ensures
        r@ == full_walk(views(tasks@), match filter { Some(v) => Some(v@), None => None }, 0),
{
    let ghost fl = match filter { Some(v) => Some(v@), None => None::<Seq<u128>> };
    let mut acc: Vec<u128> = Vec::new();
    let mut k: usize = 0;
    while k < tasks.len()
        invariant
            k <= tasks@.len(),
            fl == (match filter { Some(v) => Some(v@), None => None::<Seq<u128>> }),
            full_walk(views(tasks@), fl, 0) =~= acc@ + full_walk(views(tasks@), fl, k as int),
        decreases tasks@.len() - k,
    {
        let ghost before = acc@;
        if starts_walk(filter, &tasks[k]) {
            full_visit_into(tasks, filter, tasks[k].id, &mut acc, tasks.len());
        }
        proof {
            let here = if walk_root(fl, views(tasks@)[k as int]) {
                full_visit(views(tasks@), fl, views(tasks@)[k as int].id, tasks@.len())
            } else {
                Seq::<u128>::empty()
            };
            assert(acc@ =~= before + here);
            assert(before + (here + full_walk(views(tasks@), fl, k + 1)) =~= (before + here) + full_walk(
                views(tasks@),
                fl,
                k + 1,
            ));
        }
        k = k + 1;
    }
    proof {
        assert(full_walk(views(tasks@), fl, k as int) =~= Seq::<u128>::empty());
    }
    acc
}

/// Identifiers of the whole forest in preorder, ignoring every filter.
pub fn full_ids(tasks: &Vec<Task>) -> (r: Vec<u128>)
    ensures
        r@ == full_order(views(tasks@)),
{
    walk_ids(tasks, &None)
}

/// Last position of `x` in `s`, or -1.
pub open spec fn last_pos_upto(s: Seq<u128>, x: u128, i: int) -> int
    decreases i + 1,
    when i >= -1
{
    if i < 0 {
        -1
    } else if i < s.len() && s[i] == x {
        i
    } else {
        last_pos_upto(s, x, i - 1)
    }
}

/// Sort key of a task from a preorder: its last position there, or `usize::MAX`.
pub open spec fn order_key(s: Seq<u128>, x: u128) -> usize {
    let p = last_pos_upto(s, x, s.len() - 1);
    if p < 0 {
        usize::MAX
    } else {
        p as usize
    }
}

pub fn order_key_of(s: &Vec<u128>, x: u128) -> (r: usize)
    ensures
        r == order_key(s@, x),
{
    let mut i: usize = s.len();
    while i > 0
        invariant
            i <= s@.len(),
            last_pos_upto(s@, x, s@.len() - 1) == last_pos_upto(s@, x, i - 1),
        decreases i,
    {
        if s[i - 1] == x {
            return i - 1;
        }
        i = i - 1;
    }
    usize::MAX
}


/// Every identifier in `s` names a task of `ts`.
pub open spec fn all_present(ts: Seq<TaskView>, s: Seq<u128>) -> bool {
    forall|i: int| 0 <= i < s.len() ==> has_id(ts, #[trigger] s[i])
}

pub proof fn lemma_dfs_present(ts: Seq<TaskView>, inc: Seq<u128>, id: u128, acc: Seq<u128>, fuel: nat)
    requires
        all_present(ts, acc),
    ensures
        all_present(ts, dfs_visit(ts, inc, id, acc, fuel)),
    decreases fuel, 0int, 0int,
{
    if fuel == 0 || acc.contains(id) || first_index(ts, id) < 0 {
    } else {
        lemma_first_index(ts, id);
        let acc2 = acc.push(id);
        assert(all_present(ts, acc2)) by {
            assert forall|i: int| 0 <= i < acc2.len() implies has_id(ts, #[trigger] acc2[i]) by {
                if i < acc.len() {
                    assert(acc2[i] == acc[i]);
                } else {
                    assert(ts[first_index(ts, id)].id == id);
                }
            }
        }
        lemma_kids_present(ts, inc, ts[first_index(ts, id)].children, 0, acc2, (fuel - 1) as nat);
    }
}

pub proof fn lemma_kids_present(
    ts: Seq<TaskView>,
    inc: Seq<u128>,
    kids: Seq<u128>,
    i: int,
    acc: Seq<u128>,
    fuel: nat,
)
    requires
        all_present(ts, acc),
    ensures
        all_present(ts, dfs_kids(ts, inc, kids, i, acc, fuel)),
    decreases fuel, 1int, kids.len() - i,
{
    if i < 0 || i >= kids.len() {
    } else {
        let acc2 = if inc.contains(kids[i]) {
            dfs_visit(ts, inc, kids[i], acc, fuel)
        } else {
            acc
        };
        if inc.contains(kids[i]) {
            lemma_dfs_present(ts, inc, kids[i], acc, fuel);
        }
        lemma_kids_present(ts, inc, kids, i + 1, acc2, fuel);
    }
}

pub proof fn lemma_walk_present(ts: Seq<TaskView>, inc: Seq<u128>, k: int, acc: Seq<u128>)
    requires
        0 <= k,
        all_present(ts, acc),
    ensures
        all_present(ts, forest_walk(ts, inc, k, acc)),
    decreases ts.len() - k,
{
    if k < ts.len() {
        let t = ts[k];
        let skip = !inc.contains(t.id) || acc.contains(t.id) || (t.parent_id is Some && inc.contains(
            t.parent_id->0,
        ));
        let acc2 = if skip {
            acc
        } else {
            dfs_visit(ts, inc, t.id, acc, ts.len())
        };
        if !skip {
            lemma_dfs_present(ts, inc, t.id, acc, ts.len());
        }
        lemma_walk_present(ts, inc, k + 1, acc2);
    }
}

/// Every identifier of a tree order names a task.
pub proof fn lemma_forest_present(ts: Seq<TaskView>, inc: Seq<u128>)
    ensures
        all_present(ts, forest_order(ts, inc)),
{
    lemma_walk_present(ts, inc, 0, Seq::empty());
}

/// References to the first task with each of `ids`.
pub fn tasks_by_ids<'a>(tasks: &'a Vec<Task>, ids: &Vec<u128>) -> (r: Vec<&'a Task>)
    requires
        all_present(views(tasks@), ids@),
    ensures
        r@.len() == ids@.len(),
        forall|i: int| 0 <= i < ids@.len() ==> (*#[trigger] r@[i])@ == lookup(views(tasks@), ids@[i])->0,
{
    let mut r: Vec<&'a Task> = Vec::new();
    let mut i: usize = 0;
    while i < ids.len()
        invariant
            i <= ids@.len(),
            all_present(views(tasks@), ids@),
            r@.len() == i,
            forall|j: int| 0 <= j < i ==> (*#[trigger] r@[j])@ == lookup(views(tasks@), ids@[j])->0,
        decreases ids@.len() - i,
    {
        let id = ids[i];
        proof {
            lemma_first_index(views(tasks@), id);
            assert(has_id(views(tasks@), ids@[i as int]));
        }
        match find_index(tasks, id) {
            Some(k) => {
                r.push(&tasks[k]);
            },
            None => {
                proof {
                    assert(false);
                }
            },
        }
        i = i + 1;
    }
    r
}

} // verus!
