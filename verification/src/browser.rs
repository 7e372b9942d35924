//! The snapshot browser's tree: years, months and days of the snapshots,
//! newest first, each opened or closed, with the snapshots under the days.

use vstd::prelude::*;

verus! {

/// A node of the browser that can be opened.
#[derive(Debug, Clone, Copy, PartialEq, Eq, Structural)]
pub enum NodeKey {
    Year(i32),
    Month(i32, u32),
    Day(i32, u32, u32),
}

/// A line of the browser: a year, a month, a day, or the snapshot at a
/// position of the list.
#[derive(Debug, Clone, Copy, PartialEq, Eq, Structural)]
pub enum BrowserNode {
    Year(i32),
    Month(i32, u32),
    Day(i32, u32, u32),
    Snap(usize),
}

/// A line of the browser with its depth and whether it is opened.
#[derive(Debug, Clone, Copy, PartialEq, Eq, Structural)]
pub struct BrowserItem {
    pub node: BrowserNode,
    pub depth: usize,
    pub expanded: bool,
}

/// The lines for snapshot `k` when the snapshots after it are already
/// listed, newest first: the headers of its year, month and day when they
/// start there (each shown while the nodes above it are open), then the
/// snapshot when its day is open.
pub open spec fn lines_for(dates: Seq<(i32, u32, u32)>, open: Seq<NodeKey>, k: int) -> Seq<BrowserItem> {
    let (y, m, d) = dates[k];
    let first = k + 1 >= dates.len();
    let new_year = first || dates[k + 1].0 != y;
    let new_month = new_year || dates[k + 1].1 != m;
    let new_day = new_month || dates[k + 1].2 != d;
    let yo = open.contains(NodeKey::Year(y));
    let mo = open.contains(NodeKey::Month(y, m));
    let dop = open.contains(NodeKey::Day(y, m, d));
    let year_line = if new_year {
        seq![BrowserItem { node: BrowserNode::Year(y), depth: 0, expanded: yo }]
    } else {
        Seq::empty()
    };
    let month_line = if new_month && yo {
        seq![BrowserItem { node: BrowserNode::Month(y, m), depth: 1, expanded: mo }]
    } else {
        Seq::empty()
    };
    let day_line = if new_day && yo && mo {
        seq![BrowserItem { node: BrowserNode::Day(y, m, d), depth: 2, expanded: dop }]
    } else {
        Seq::empty()
    };
    let snap_line = if yo && mo && dop {
        seq![BrowserItem { node: BrowserNode::Snap(k as usize), depth: 3, expanded: false }]
    } else {
        Seq::empty()
    };
    year_line + month_line + day_line + snap_line
}

/// The lines of the snapshots `dates[k..]`, newest first.
pub open spec fn lines_from(dates: Seq<(i32, u32, u32)>, open: Seq<NodeKey>, k: int) -> Seq<BrowserItem>
    decreases dates.len() - k,
    when 0 <= k
{
    if k >= dates.len() {
        Seq::empty()
    } else {
        lines_from(dates, open, k + 1) + lines_for(dates, open, k)
    }
}

/// Whether `key` is among `open`.
fn is_open(open: &Vec<NodeKey>, key: NodeKey) -> (r: bool)
    ensures
        r == open@.contains(key),
{
    let mut i: usize = 0;
    while i < open.len()
        invariant
            i <= open@.len(),
            forall|j: int| 0 <= j < i ==> open@[j] != key,
        decreases open@.len() - i,
    {
        if open[i] == key {
            return true;
        }
        i = i + 1;
    }
    false
}

/// The lines of the browser for snapshots taken on the local dates `dates`
/// (oldest first), with the nodes `open` opened: newest first, each year,
/// month and day once, the months of an open year, the days of an open
/// month, and the snapshots of an open day.
pub fn browser_items(dates: &Vec<(i32, u32, u32)>, open: &Vec<NodeKey>) -> (r: Vec<BrowserItem>)
    ensures
        r@ == lines_from(dates@, open@, 0),
{
    let n = dates.len();
    let mut r: Vec<BrowserItem> = Vec::new();
    let mut k: usize = n;
    while k > 0
        invariant
            k <= n,
            n == dates@.len(),
            r@ == lines_from(dates@, open@, k as int),
        decreases k,
    {
        push_lines(dates, open, k - 1, &mut r);
        k = k - 1;
    }
    r
}

/// Appends the lines for snapshot `i` (see `lines_for`).
fn push_lines(dates: &Vec<(i32, u32, u32)>, open: &Vec<NodeKey>, i: usize, r: &mut Vec<BrowserItem>)
    requires
        i < dates@.len(),
    ensures
        final(r)@ == old(r)@ + lines_for(dates@, open@, i as int),
{
    let n = dates.len();
    let (y, m, d) = dates[i];
    let first = i + 1 >= n;
    let new_year = first || dates[i + 1].0 != y;
    let new_month = new_year || dates[i + 1].1 != m;
    let new_day = new_month || dates[i + 1].2 != d;
    let yo = is_open(open, NodeKey::Year(y));
    let mo = is_open(open, NodeKey::Month(y, m));
    let dop = is_open(open, NodeKey::Day(y, m, d));
    if new_year {
        r.push(BrowserItem { node: BrowserNode::Year(y), depth: 0, expanded: yo });
    }
    if new_month && yo {
        r.push(BrowserItem { node: BrowserNode::Month(y, m), depth: 1, expanded: mo });
    }
    if new_day && yo && mo {
        r.push(BrowserItem { node: BrowserNode::Day(y, m, d), depth: 2, expanded: dop });
    }
    if yo && mo && dop {
        r.push(BrowserItem { node: BrowserNode::Snap(i), depth: 3, expanded: false });
    }
    proof {
        assert(r@ =~= old(r)@ + lines_for(dates@, open@, i as int));
    }
}

/// Opens `key` when it is closed and closes it when it is open.
pub fn toggle_key(open: &mut Vec<NodeKey>, key: NodeKey)
    ensures
        forall|x: NodeKey| #[trigger] final(open)@.contains(x) == (if x == key {
            !old(open)@.contains(key)
        } else {
            old(open)@.contains(x)
        }),
{
    if is_open(open, key) {
        close_key(open, key);
    } else {
        open.push(key);
        proof {
            assert forall|x: NodeKey| #[trigger] open@.contains(x) == (x == key || old(open)@.contains(x)) by {
                if open@.contains(x) && x != key {
                    let w = choose|w: int| 0 <= w < open@.len() && open@[w] == x;
                    assert(w < old(open)@.len());
                    assert(old(open)@[w] == x);
                }
                if old(open)@.contains(x) {
                    let w = choose|w: int| 0 <= w < old(open)@.len() && old(open)@[w] == x;
                    assert(open@[w] == x);
                }
                if x == key {
                    assert(open@[open@.len() - 1] == key);
                }
            }
        }
    }
}

/// Closes `key`.
pub fn close_key(open: &mut Vec<NodeKey>, key: NodeKey)
    ensures
        forall|x: NodeKey| #[trigger] final(open)@.contains(x) == (x != key && old(open)@.contains(x)),
{
    let mut kept: Vec<NodeKey> = Vec::new();
    let mut i: usize = 0;
    while i < open.len()
        invariant
            i <= open@.len(),
            open@ == old(open)@,
            forall|x: NodeKey| #[trigger] kept@.contains(x) == (x != key && open@.take(i as int).contains(x)),
        decreases open@.len() - i,
    {
        let x = open[i];
        let ghost before = kept@;
        if x != key {
            kept.push(x);
        }
        proof {
            let t = open@.take(i + 1);
            assert(t =~= open@.take(i as int).push(x));
            assert forall|z: NodeKey| #[trigger] kept@.contains(z) == (z != key && t.contains(z)) by {
                if t.contains(z) {
                    let w = choose|w: int| 0 <= w < t.len() && t[w] == z;
                    if w < i {
                        assert(open@.take(i as int)[w] == z);
                    }
                }
                if open@.take(i as int).contains(z) {
                    let w = choose|w: int| 0 <= w < i && open@.take(i as int)[w] == z;
                    assert(t[w] == z);
                }
                if kept@.contains(z) {
                    let w = choose|w: int| 0 <= w < kept@.len() && kept@[w] == z;
                    if w < before.len() {
                        assert(before[w] == z);
                    }
                }
                if before.contains(z) {
                    let w = choose|w: int| 0 <= w < before.len() && before[w] == z;
                    assert(kept@[w] == z);
                }
                if z == x && z != key {
                    assert(kept@[kept@.len() - 1] == z);
                    assert(t[i as int] == z);
                }
            }
        }
        i = i + 1;
    }
    proof {
        assert(open@.take(open@.len() as int) =~= open@);
    }
    *open = kept;
}

/// The node that closes when `h` is pressed on `item`: the item itself when
/// it is an open year, month or day; the day of a snapshot (taken on
/// `date`); nothing otherwise.
pub open spec fn collapse_target(item: BrowserItem, date: (i32, u32, u32), open: Seq<NodeKey>) -> Option<NodeKey> {
    match item.node {
        BrowserNode::Year(y) => if open.contains(NodeKey::Year(y)) {
            Some(NodeKey::Year(y))
        } else {
            None
        },
        BrowserNode::Month(y, m) => if open.contains(NodeKey::Month(y, m)) {
            Some(NodeKey::Month(y, m))
        } else {
            None
        },
        BrowserNode::Day(y, m, d) => if open.contains(NodeKey::Day(y, m, d)) {
            Some(NodeKey::Day(y, m, d))
        } else {
            None
        },
        BrowserNode::Snap(_) => Some(NodeKey::Day(date.0, date.1, date.2)),
    }
}

/// The node that closes when `h` is pressed on `item` (a snapshot taken on
/// `date` closes its day).
pub fn collapse_key(item: &BrowserItem, date: (i32, u32, u32), open: &Vec<NodeKey>) -> (r: Option<NodeKey>)
    ensures
        r == collapse_target(*item, date, open@),
{
    match item.node {
        BrowserNode::Year(y) => if is_open(open, NodeKey::Year(y)) {
            Some(NodeKey::Year(y))
        } else {
            None
        },
        BrowserNode::Month(y, m) => if is_open(open, NodeKey::Month(y, m)) {
            Some(NodeKey::Month(y, m))
        } else {
            None
        },
        BrowserNode::Day(y, m, d) => if is_open(open, NodeKey::Day(y, m, d)) {
            Some(NodeKey::Day(y, m, d))
        } else {
            None
        },
        BrowserNode::Snap(_) => Some(NodeKey::Day(date.0, date.1, date.2)),
    }
}

/// Where the cursor goes after a snapshot's day was closed: the last day
/// line before position `cursor` (it stays when there is none).
pub open spec fn day_above(items: Seq<BrowserItem>, cursor: int) -> int
    decreases cursor,
{
    if cursor <= 0 {
        -1
    } else if items[cursor - 1].node is Day {
        cursor - 1
    } else {
        day_above(items, cursor - 1)
    }
}

/// The last day line before position `cursor` (among `items`), if any.
pub fn find_day_above(items: &Vec<BrowserItem>, cursor: usize) -> (r: Option<usize>)
    ensures
        ({
            let c = if cursor < items@.len() { cursor as int } else { items@.len() as int };
            match r {
                Some(i) => i as int == day_above(items@, c),
                None => day_above(items@, c) == -1,
            }
        }),
{
    let mut i: usize = if cursor < items.len() { cursor } else { items.len() };
    let ghost c = i as int;
    while i > 0
        invariant
            i <= items@.len(),
            c == (if cursor < items@.len() { cursor as int } else { items@.len() as int }),
            day_above(items@, c) == day_above(items@, i as int),
        decreases i,
    {
        if items[i - 1].node.is_day() {
            proof {
                assert(items@[i - 1].node is Day);
                assert(day_above(items@, i as int) == i - 1);
            }
            return Some(i - 1);
        }
        i = i - 1;
    }
    None
}

impl BrowserNode {
    /// Whether the node is a day.
    pub fn is_day(&self) -> (r: bool)
        ensures
            r == (*self is Day),
    {
        match self {
            BrowserNode::Day(..) => true,
            _ => false,
        }
    }
}

} // verus!
