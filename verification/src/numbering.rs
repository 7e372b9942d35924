//! What the tree rows are labelled with: the number of each row among its
//! siblings, and the project separators of the snapshot viewer.

use vstd::prelude::*;

use crate::board::same_text;
use crate::task::Task;
use crate::tree::find_index;

verus! {

/// The sibling counters after the rows of depths `depths[..k]`: a row of a
/// depth already counted drops the deeper counters and counts one more at
/// its depth; a deeper row starts a new counter at one.
pub open spec fn counters(depths: Seq<usize>, k: int) -> Seq<nat>
    decreases k,
{
    if k <= 0 {
        Seq::empty()
    } else {
        let c = counters(depths, k - 1);
        let d = depths[k - 1] as int;
        if d < c.len() {
            c.subrange(0, d + 1).update(d, c[d] + 1)
        } else {
            c.push(1)
        }
    }
}

/// The number of row `i` among its siblings: the last counter once it is
/// counted.
pub open spec fn sibling_number(depths: Seq<usize>, i: int) -> nat {
    counters(depths, i + 1).last()
}

/// The counters never exceed the number of rows counted.
proof fn lemma_counters_bounded(depths: Seq<usize>, k: int)
    requires
        0 <= k <= depths.len(),
    ensures
        counters(depths, k).len() <= k,
        forall|j: int| 0 <= j < counters(depths, k).len() ==> 1 <= #[trigger] counters(depths, k)[j] <= k,
    decreases k,
{
    if k > 0 {
        lemma_counters_bounded(depths, k - 1);
    }
}

/// The number of each row among its siblings, for rows of depths `depths`.
pub fn row_numbers(depths: &Vec<usize>) -> (r: Vec<usize>)
    ensures
        r@.len() == depths@.len(),
        forall|i: int| 0 <= i < r@.len() ==> r@[i] == sibling_number(depths@, i),
{
    let mut c: Vec<usize> = Vec::new();
    let mut r: Vec<usize> = Vec::new();
    let mut k: usize = 0;
    while k < depths.len()
        invariant
            k <= depths@.len(),
            c@.map_values(|x: usize| x as nat) == counters(depths@, k as int),
            r@.len() == k,
            forall|i: int| 0 <= i < k ==> r@[i] == sibling_number(depths@, i),
        decreases depths@.len() - k,
    {
        proof {
            lemma_counters_bounded(depths@, k as int);
        }
        let ghost before = c@.map_values(|x: usize| x as nat);
        let d = depths[k];
        if d < c.len() {
            c.truncate(d + 1);
            let v = c[d];
            assert(v < usize::MAX) by {
                assert(before[d as int] == v as nat);
            }
            c.set(d, v + 1);
        } else {
            c.push(1);
        }
        proof {
            assert(c@.map_values(|x: usize| x as nat) =~= counters(depths@, k + 1));
            lemma_counters_bounded(depths@, k + 1);
        }
        let last = c[c.len() - 1];
        r.push(last);
        k = k + 1;
    }
    r
}

/// An entry of the snapshot viewer: a project separator (its label) or the
/// row at a position.
#[derive(Debug, Clone, PartialEq, Eq)]
pub enum ViewerEntry {
    Separator(String),
    Row(usize),
}

/// What an entry of the snapshot viewer shows.
pub enum EntryView {
    Separator(Seq<char>),
    Row(usize),
}

/// The label of a project's separator: its name, INBOX for none.
pub open spec fn project_label(p: Seq<char>) -> Seq<char> {
    if p.len() == 0 {
        "INBOX"@
    } else {
        p
    }
}

/// What the viewer entries show.
pub open spec fn entry_views(e: Seq<ViewerEntry>) -> Seq<EntryView> {
    e.map_values(
        |x: ViewerEntry|
            match x {
                ViewerEntry::Separator(s) => EntryView::Separator(s@),
                ViewerEntry::Row(i) => EntryView::Row(i),
            },
    )
}

/// The viewer entries of the rows `rows[..k]` (identifier and depth), with
/// `cur` the project of the last separator: each row of depth 0 whose task's
/// project differs from it is preceded by a separator of that project.
pub open spec fn viewer_entries_upto(projects_of: Seq<Seq<char>>, depths: Seq<usize>, k: int) -> (Seq<EntryView>, Option<Seq<char>>)
    decreases k,
{
    if k <= 0 {
        (Seq::empty(), None)
    } else {
        let (e, cur) = viewer_entries_upto(projects_of, depths, k - 1);
        let p = projects_of[k - 1];
        if depths[k - 1] == 0 && cur != Some(p) {
            (e.push(EntryView::Separator(project_label(p))).push(EntryView::Row((k - 1) as usize)), Some(p))
        } else {
            (e.push(EntryView::Row((k - 1) as usize)), cur)
        }
    }
}

/// The project of the first task `id` (empty when not found).
pub open spec fn project_of(ts: Seq<crate::task::TaskView>, id: u128) -> Seq<char> {
    match crate::tree::lookup(ts, id) {
        Some(t) => t.project,
        None => Seq::empty(),
    }
}

/// The entries of the snapshot viewer for rows with identifiers `ids` and
/// depths `depths`: a separator before each top-level row that starts a new
/// project, then the row.
pub fn viewer_entries(ids: &Vec<u128>, depths: &Vec<usize>, tasks: &Vec<Task>) -> (r: Vec<ViewerEntry>)
    requires
        ids@.len() == depths@.len(),
    ensures
        entry_views(r@) == viewer_entries_upto(
            Seq::new(ids@.len(), |i: int| project_of(crate::task::views(tasks@), ids@[i])),
            depths@,
            ids@.len() as int,
        ).0,
{
    let ghost projs = Seq::new(ids@.len(), |i: int| project_of(crate::task::views(tasks@), ids@[i]));
    let mut r: Vec<ViewerEntry> = Vec::new();
    let mut cur: Option<String> = None;
    let mut k: usize = 0;
    while k < ids.len()
        invariant
            k <= ids@.len(),
            ids@.len() == depths@.len(),
            projs == Seq::new(ids@.len(), |i: int| project_of(crate::task::views(tasks@), ids@[i])),
            entry_views(r@) == viewer_entries_upto(projs, depths@, k as int).0,
            (match cur {
                Some(s) => Some(s@),
                None => None,
            }) == viewer_entries_upto(projs, depths@, k as int).1,
        decreases ids@.len() - k,
    {
        let ghost before = entry_views(r@);
        let proj: String = match find_index(tasks, ids[k]) {
            Some(i) => {
                proof {
                    crate::tree::lemma_first_index(crate::task::views(tasks@), ids@[k as int]);
                }
                tasks[i].project.clone()
            },
            None => {
                proof {
                    crate::tree::lemma_first_index(crate::task::views(tasks@), ids@[k as int]);
                }
                String::new()
            },
        };
        let same = match &cur {
            Some(s) => same_text(s.as_str(), proj.as_str()),
            None => false,
        };
        if depths[k] == 0 && !same {
            let label = if proj.unicode_len() == 0 {
                "INBOX".to_owned()
            } else {
                proj.clone()
            };
            r.push(ViewerEntry::Separator(label));
            r.push(ViewerEntry::Row(k));
            cur = Some(proj);
        } else {
            r.push(ViewerEntry::Row(k));
        }
        proof {
            assert(entry_views(r@) =~= viewer_entries_upto(projs, depths@, k + 1).0);
        }
        k = k + 1;
    }
    r
}

/// The scroll offset `offset` pulled back so that the last screen of `len`
/// entries, `h` high, is still full.
pub fn clamp_scroll(offset: usize, len: usize, h: usize) -> (r: usize)
    ensures
        r == (if len > h {
            if offset < len - h {
                offset as int
            } else {
                len - h
            }
        } else {
            0
        }),
{
    let max = len.saturating_sub(h);
    if offset < max {
        offset
    } else {
        max
    }
}

} // verus!
