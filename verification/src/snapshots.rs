//! Snapshots of the board: what one holds, and the browser that lists them
//! and shows one.

use std::collections::HashSet;

use vstd::prelude::*;

use crate::board::{App, Mode};
use crate::outside::now_millis;
use crate::task::{Task, clone_tasks, views};

verus! {

/// Sort key of a time in milliseconds: earlier times get smaller keys.
pub open spec fn stamp_key(t: i64) -> u128 {
    (t as int + 9223372036854775808int) as u128
}

/// The keys of the times `stamps`.
pub open spec fn stamp_keys(stamps: Seq<i64>) -> Seq<u128> {
    Seq::new(stamps.len(), |i: int| stamp_key(stamps[i]))
}

/// The order in which snapshots taken at `stamps` (milliseconds) are listed:
/// oldest first, those taken at the same time in the order found.
pub fn oldest_first(stamps: &Vec<i64>) -> (p: Vec<usize>)
    ensures
        crate::sorting::is_stable_order(stamp_keys(stamps@), p@),
{
    let mut keys: Vec<u128> = Vec::new();
    let mut i: usize = 0;
    while i < stamps.len()
        invariant
            i <= stamps@.len(),
            keys@ == stamp_keys(stamps@.take(i as int)),
        decreases stamps@.len() - i,
    {
        let t = stamps[i];
        let wide: i128 = t as i128 + 9223372036854775808i128;
        keys.push(wide as u128);
        i = i + 1;
        proof {
            assert(keys@ =~= stamp_keys(stamps@.take(i as int)));
        }
    }
    proof {
        assert(stamps@.take(stamps@.len() as int) =~= stamps@);
    }
    crate::sorting::stable_order(&keys)
}

/// One saved snapshot offered by the snapshot browser: its label and file path.
pub struct SnapEntry {
    pub label: String,
    pub path: String,
}

/// The contents of a snapshot opened for viewing.
pub struct SnapViewerData {
    pub tasks: Vec<Task>,
    pub projects: [Option<String>; 10],
    pub collapsed: Vec<u128>,
    pub scroll_offset: usize,
    pub label: String,
}

/// State of the snapshot browser popup.
pub struct SnapPopupState {
    pub entries: Vec<SnapEntry>,
    pub cursor: usize,
    pub viewer: Option<SnapViewerData>,
}

/// The board saved at one moment (milliseconds since the epoch, UTC).
pub struct Snapshot {
    pub taken_at: i64,
    pub tasks: Vec<Task>,
    pub projects: [Option<String>; 10],
    pub active_slots: [bool; 10],
    pub show_unc: bool,
    pub collapsed: Vec<u128>,
}

/// Whether two lists of project slots name the same projects.
pub open spec fn same_names(a: Seq<Option<String>>, b: Seq<Option<String>>) -> bool {
    &&& a.len() == b.len()
    &&& forall|i: int|
        0 <= i < a.len() ==> (#[trigger] a[i] is Some == b[i] is Some) && (a[i] is Some ==> a[i]->0@
            == b[i]->0@)
}

/// A copy of the ten project slots.
pub fn copy_projects(p: &[Option<String>; 10]) -> (r: [Option<String>; 10])
    ensures
        same_names(r@, p@),
{
    let mut r: [Option<String>; 10] = [None, None, None, None, None, None, None, None, None, None];
    let mut i: usize = 0;
    while i < 10
        invariant
            i <= 10,
            r@.len() == 10,
            p@.len() == 10,
            forall|j: int| i <= j < 10 ==> r@[j] is None,
            forall|j: int|
                0 <= j < i ==> (#[trigger] r@[j] is Some == p@[j] is Some) && (r@[j] is Some ==> r@[j]->0@
                    == p@[j]->0@),
        decreases 10 - i,
    {
        r[i] = match &p[i] {
            Some(s) => Some(s.clone()),
            None => None,
        };
        i = i + 1;
    }
    r
}

/// The members of a set of identifiers, each once.
pub fn set_members(s: &HashSet<u128>) -> (r: Vec<u128>)
    ensures
        r@.to_set() == s@,
        r@.no_duplicates(),
{
    let mut r: Vec<u128> = Vec::new();
    for x in it: s.iter()
        invariant
            it.seq().unref().to_set() == s@,
            it.seq().unref().no_duplicates(),
            r@ == it.seq().unref().take(it.index() as int),
            r@.no_duplicates(),
            forall|y: u128| r@.contains(y) ==> s@.contains(y),
            forall|y: u128|
                s@.contains(y) ==> (r@.contains(y) || exists|j: int|
                    it.index() <= j < it.seq().len() && *#[trigger] it.seq()[j] == y),
    {
        proof {
            let u = it.seq().unref();
            let i = it.index() as int;
            assert(u[i] == *x);
            assert(u.to_set().contains(*x));
            assert(!r@.contains(*x)) by {
                if r@.contains(*x) {
                    let j = choose|j: int| 0 <= j < r@.len() && r@[j] == *x;
                    assert(u[j] == u[i]);
                }
            }
            assert(u.take(i + 1) =~= r@.push(*x));
        }
        r.push(*x);
        proof {
            assert(r@[r@.len() - 1] == *x);
            assert(r@.contains(*x));
        }
    }
    proof {
        assert(r@.to_set() =~= s@);
    }
    r
}

impl App {
    /// A snapshot of the tasks, project slots, filter and folds, taken now.
    pub fn to_snapshot(&self) -> (snap: Snapshot)
        ensures
            crate::outside::valid_ms(snap.taken_at),
            views(snap.tasks@) == views(self.tasks@),
            same_names(snap.projects@, self.projects@),
            snap.active_slots == self.active_slots,
            snap.show_unc == self.show_unc,
            snap.collapsed@.to_set() == self.collapsed@,
            snap.collapsed@.no_duplicates(),
    {
        Snapshot {
            taken_at: now_millis(),
            tasks: clone_tasks(&self.tasks),
            projects: copy_projects(&self.projects),
            active_slots: self.active_slots,
            show_unc: self.show_unc,
            collapsed: set_members(&self.collapsed),
        }
    }

    /// Opens the snapshot browser on the listed snapshots `popup`.
    pub fn open_snap_browser(&mut self, popup: SnapPopupState)
        ensures
            (*final(self) == (App { snap_popup: Some(popup), mode: Mode::SnapBrowser, ..*old(self) })),
    {
        self.snap_popup = Some(popup);
        self.mode = Mode::SnapBrowser;
    }

    /// What `close_snap_browser` makes of `old`: the state `new`.
    pub open spec fn close_snap_browser_done(old: App, new: App) -> bool {
        &&& ((new == (App { snap_popup: None, mode: Mode::Normal, ..old })))
    }

    /// Closes the snapshot browser.
    pub fn close_snap_browser(&mut self)
        ensures
            App::close_snap_browser_done(*old(self), *final(self)),
    {
        self.snap_popup = None;
        self.mode = Mode::Normal;
    }
}

impl SnapPopupState {
    /// Shows snapshot `snap`, read from the entry under the cursor, with its
    /// label; nothing happens when the cursor is past the entries.
    pub fn open_viewer(&mut self, snap: Snapshot)
        ensures
            old(self).cursor < old(self).entries@.len() ==> (final(self).viewer matches Some(v) && v.tasks
                == snap.tasks && v.projects == snap.projects && v.collapsed == snap.collapsed && v.scroll_offset
                == 0 && v.label@ == old(self).entries@[old(self).cursor as int].label@),
            old(self).cursor < old(self).entries@.len() ==> final(self).entries == old(self).entries
                && final(self).cursor == old(self).cursor,
            old(self).cursor >= old(self).entries@.len() ==> *final(self) == *old(self),
    {
        if self.cursor >= self.entries.len() {
            return;
        }
        let label = self.entries[self.cursor].label.clone();
        self.viewer = Some(
            SnapViewerData {
                tasks: snap.tasks,
                projects: snap.projects,
                collapsed: snap.collapsed,
                scroll_offset: 0,
                label,
            },
        );
    }

    /// Closes the snapshot being shown.
    pub fn close_viewer(&mut self)
        ensures
            final(self).viewer is None,
            final(self).entries == old(self).entries,
            final(self).cursor == old(self).cursor,
    {
        self.viewer = None;
    }

    /// Scrolls the snapshot being shown one row down.
    pub fn viewer_scroll_down(&mut self)
        requires
            old(self).viewer matches Some(v) ==> v.scroll_offset < usize::MAX,
        ensures
            match old(self).viewer {
                Some(v) => (final(self).viewer matches Some(w) && w.scroll_offset == v.scroll_offset + 1
                    && w.tasks == v.tasks && w.label == v.label),
                None => final(self).viewer is None,
            },
            final(self).entries == old(self).entries,
            final(self).cursor == old(self).cursor,
    {
        if let Some(v) = &mut self.viewer {
            v.scroll_offset = v.scroll_offset + 1;
        }
    }

    /// Scrolls the snapshot being shown one row up, stopping at the top.
    pub fn viewer_scroll_up(&mut self)
        ensures
            match old(self).viewer {
                Some(v) => (final(self).viewer matches Some(w) && w.scroll_offset == (if v.scroll_offset > 0 {
                    v.scroll_offset - 1
                } else {
                    0
                }) && w.tasks == v.tasks && w.label == v.label),
                None => final(self).viewer is None,
            },
            final(self).entries == old(self).entries,
            final(self).cursor == old(self).cursor,
    {
        if let Some(v) = &mut self.viewer {
            v.scroll_offset = v.scroll_offset.saturating_sub(1);
        }
    }

    /// Moves the cursor one entry up, stopping at the first.
    pub fn move_up(&mut self)
        ensures
            final(self).cursor == (if old(self).cursor > 0 { old(self).cursor - 1 } else { 0 }),
            final(self).entries == old(self).entries,
            final(self).viewer == old(self).viewer,
    {
        self.cursor = self.cursor.saturating_sub(1);
    }

    /// Moves the cursor one entry down, stopping at the last.
    pub fn move_down(&mut self)
        ensures
            final(self).cursor == (if old(self).cursor + 1 < old(self).entries@.len() {
                old(self).cursor + 1
            } else {
                old(self).cursor as int
            }),
            final(self).entries == old(self).entries,
            final(self).viewer == old(self).viewer,
    {
        if self.cursor < self.entries.len() && self.cursor + 1 < self.entries.len() {
            self.cursor = self.cursor + 1;
        }
    }
}

} // verus!
