//! The ten project slots: naming them, cycling through them, and moving a
//! task tree to one of them.

use vstd::prelude::*;

use crate::board::{App, Column, Mode, MoveState, ProjectEditState};
use crate::edit::set_project_spec;
use crate::filter::{only_slot, wrap_index};
use crate::task::views;
use crate::text::{blank, trim_text, trimmed};
use crate::tree::{root_of, root_task_id};

verus! {

/// The projects after slot `slot` takes the name typed as `input`: none
/// when it is blank, else the trimmed text.
pub open spec fn named_slot(old: Seq<Option<String>>, new: Seq<Option<String>>, slot: int, input: Seq<char>) -> bool {
    &&& new.len() == old.len()
    &&& forall|j: int| 0 <= j < old.len() && j != slot ==> #[trigger] new[j] == old[j]
    &&& if blank(input) {
        new[slot] is None
    } else {
        new[slot] matches Some(p) && p@ == trimmed(input)
    }
}

/// The entries the project cycle goes through after INBOX: the named slots
/// among the first `k`, in order.
pub open spec fn named_items(projects: Seq<Option<String>>, k: int) -> Seq<Option<usize>>
    decreases k,
{
    if k <= 0 {
        Seq::empty()
    } else if projects[k - 1] is Some {
        named_items(projects, k - 1).push(Some((k - 1) as usize))
    } else {
        named_items(projects, k - 1)
    }
}

/// Position of `x` in `s` from `i` on, or -1.
pub open spec fn item_pos(s: Seq<Option<usize>>, x: Option<usize>, i: int) -> int
    decreases s.len() - i,
    when 0 <= i
{
    if i >= s.len() {
        -1
    } else if s[i] == x {
        i
    } else {
        item_pos(s, x, i + 1)
    }
}

/// The first slot switched on from `i` on.
pub open spec fn first_on(active: Seq<bool>, i: int) -> Option<int>
    decreases active.len() - i,
    when 0 <= i
{
    if i >= active.len() {
        None
    } else if active[i] {
        Some(i)
    } else {
        first_on(active, i + 1)
    }
}

proof fn lemma_named_items(projects: Seq<Option<String>>, k: int)
    requires
        0 <= k,
    ensures
        named_items(projects, k).len() <= k,
        forall|j: int|
            0 <= j < named_items(projects, k).len() ==> (#[trigger] named_items(projects, k)[j] matches Some(s)
                && s < k),
    decreases k,
{
    if k > 0 {
        lemma_named_items(projects, k - 1);
    }
}

proof fn lemma_item_pos(s: Seq<Option<usize>>, x: Option<usize>, i: int)
    requires
        0 <= i,
    ensures
        -1 <= item_pos(s, x, i) < s.len(),
    decreases s.len() - i,
{
    if i < s.len() && s[i] != x {
        lemma_item_pos(s, x, i + 1);
    }
}

proof fn lemma_first_on(active: Seq<bool>, i: int)
    requires
        0 <= i,
    ensures
        first_on(active, i) matches Some(s) ==> i <= s < active.len(),
        first_on(active, i) is None ==> forall|j: int| i <= j < active.len() ==> !active[j],
    decreases active.len() - i,
{
    if i < active.len() && !active[i] {
        lemma_first_on(active, i + 1);
    }
}

impl App {
    /// INBOX, then every named slot in order.
    pub open spec fn cycle_items(&self) -> Seq<Option<usize>> {
        seq![None::<usize>] + named_items(self.projects@, 10)
    }

    /// Where the project cycle stands: INBOX when only it is shown, else the
    /// first slot switched on (the start when that slot is not named).
    pub open spec fn cycle_current(&self) -> int {
        let items = self.cycle_items();
        if self.show_unc && first_on(self.active_slots@, 0) is None {
            0
        } else {
            match first_on(self.active_slots@, 0) {
                Some(s) => {
                    let q = item_pos(items, Some(s as usize), 0);
                    if q >= 0 {
                        q
                    } else {
                        0
                    }
                },
                None => 0,
            }
        }
    }

    /// What `cycle_project` makes of `old`: the state `new`.
    pub open spec fn cycle_project_done(old: App, new: App, delta: i32) -> bool {
        &&& (({
            let items = old.cycle_items();
            let item = items[(old.cycle_current() + delta) % (items.len() as int)];
            &&& new.active_slots@ == only_slot(
                match item {
                    Some(s) => Some(s as int),
                    None => None,
                },
            )
            &&& new.show_unc == (item is None)
            &&& new.cursor@ == App::refocused(new, Column::Todo, None)
            &&& (new == (App {
                active_slots: new.active_slots,
                show_unc: new.show_unc,
                cursor: new.cursor,
                focused_col: Column::Todo,
                tui_scroll_offset: 0,
                ..old
            }))
        }))
    }

    /// In the tree, shows only the entry `delta` steps along the cycle of
    /// INBOX and the named slots, with every cursor at the top of the Todo
    /// column.
    pub fn cycle_project(&mut self, delta: i32)
        ensures
            App::cycle_project_done(*old(self), *final(self), delta),
    {
        let ghost prj = self.projects@;
        let mut items: Vec<Option<usize>> = Vec::new();
        items.push(None);
        let mut slot: usize = 0;
        while slot < 10
            invariant
                slot <= 10,
                prj == self.projects@,
                prj.len() == 10,
                items@ == seq![None::<usize>] + named_items(prj, slot as int),
            decreases 10 - slot,
        {
            if self.projects[slot].is_some() {
                items.push(Some(slot));
                proof {
                    assert(items@ =~= seq![None::<usize>] + named_items(prj, slot + 1));
                }
            } else {
                proof {
                    assert(items@ =~= seq![None::<usize>] + named_items(prj, slot + 1));
                }
            }
            slot = slot + 1;
        }
        proof {
            lemma_named_items(prj, 10);
            lemma_first_on(self.active_slots@, 0);
        }
        let mut first: usize = 0;
        while first < 10 && !self.active_slots[first]
            invariant
                first <= 10,
                self.active_slots@.len() == 10,
                first_on(self.active_slots@, 0) == first_on(self.active_slots@, first as int),
            decreases 10 - first,
        {
            first = first + 1;
        }
        let current: usize = if self.show_unc && first == 10 {
            0
        } else if first < 10 {
            let mut k: usize = 0;
            while k < items.len() && items[k] != Some(first)
                invariant
                    k <= items@.len(),
                    item_pos(items@, Some(first), 0) == item_pos(items@, Some(first), k as int),
                decreases items@.len() - k,
            {
                k = k + 1;
            }
            if k < items.len() {
                k
            } else {
                0
            }
        } else {
            0
        };
        proof {
            lemma_item_pos(items@, Some(first), 0);
            assert(current as int == self.cycle_current());
        }
        let new_pos = wrap_index(current as i64 + delta as i64, items.len());
        self.active_slots = [false; 10];
        match items[new_pos] {
            None => {
                self.show_unc = true;
            },
            Some(s) => {
                self.show_unc = false;
                self.active_slots[s] = true;
            },
        }
        proof {
            assert(self.active_slots@ =~= only_slot(
                match items@[new_pos as int] {
                    Some(s) => Some(s as int),
                    None => None,
                },
            ));
        }
        let ghost before = *self;
        self.refocus(Column::Todo, None);
        proof {
            App::lemma_view_frame(&before, &*self);
        }
    }

    /// What `begin_project_edit` makes of `old`: the state `new`.
    pub open spec fn begin_project_edit_done(old: App, new: App) -> bool {
        &&& (new.project_edit matches Some(pe) && pe.slot == 0 && pe.input@ == (
        match old.projects@[0] {
            Some(p) => p@,
            None => Seq::empty(),
        }))
        &&& ((new == (App {
            project_edit: new.project_edit,
            mode: Mode::ProjectEdit,
            ..old
        })))
    }

    /// Opens the project-name prompt on the first slot.
    pub fn begin_project_edit(&mut self)
        ensures
            App::begin_project_edit_done(*old(self), *final(self)),
    {
        let input = match &self.projects[0] {
            Some(p) => p.clone(),
            None => String::new(),
        };
        self.project_edit = Some(ProjectEditState { slot: 0, input });
        self.mode = Mode::ProjectEdit;
    }

    /// What `project_edit_navigate` makes of `old`: the state `new`.
    pub open spec fn project_edit_navigate_done(old: App, new: App, delta: i32) -> bool {
        &&& (match old.project_edit {
            Some(pe) => {
                let ns = (pe.slot + delta) % 10;
                &&& named_slot(old.projects@, new.projects@, pe.slot as int, pe.input@)
                &&& new.project_edit matches Some(n) && n.slot == ns && n.input@ == (
                match new.projects@[ns] {
                    Some(p) => p@,
                    None => Seq::empty(),
                })
                &&& (new == (App {
                    projects: new.projects,
                    project_edit: new.project_edit,
                    ..old
                }))
            },
            None => new == old,
        })
    }

    /// In the project-name prompt, names the current slot after the input
    /// (blank clears it) and moves `delta` slots along, wrapping round the
    /// ten; the input then shows that slot's name.
    pub fn project_edit_navigate(&mut self, delta: i32)
        requires
            old(self).project_edit matches Some(pe) ==> pe.slot < 10,
        ensures
            App::project_edit_navigate_done(*old(self), *final(self), delta),
    {
        let (slot, name) = match &self.project_edit {
            Some(pe) => (pe.slot, trim_text(pe.input.as_str())),
            None => {
                return;
            },
        };
        let empty = name.as_str().unicode_len() == 0;
        self.projects[slot] = if empty {
            None
        } else {
            Some(name)
        };
        let new_slot = wrap_index(slot as i64 + delta as i64, 10);
        let input = match &self.projects[new_slot] {
            Some(p) => p.clone(),
            None => String::new(),
        };
        match &mut self.project_edit {
            Some(pe) => {
                pe.slot = new_slot;
                pe.input = input;
            },
            None => {},
        }
    }

    /// What `commit_project_edit` makes of `old`: the state `new`.
    pub open spec fn commit_project_edit_done(old: App, new: App) -> bool {
        &&& (match old.project_edit {
            Some(pe) => named_slot(old.projects@, new.projects@, pe.slot as int, pe.input@),
            None => new.projects == old.projects,
        })
        &&& ((new == (App {
            projects: new.projects,
            project_edit: None,
            mode: Mode::Normal,
            ..old
        })))
    }

    /// Closes the project-name prompt, naming its slot after the input
    /// (blank clears it).
    pub fn commit_project_edit(&mut self)
        requires
            old(self).project_edit matches Some(pe) ==> pe.slot < 10,
        ensures
            App::commit_project_edit_done(*old(self), *final(self)),
    {
        let taken = self.project_edit.take();
        if let Some(pe) = taken {
            let name = trim_text(pe.input.as_str());
            let empty = name.as_str().unicode_len() == 0;
            self.projects[pe.slot] = if empty {
                None
            } else {
                Some(name)
            };
        }
        self.mode = Mode::Normal;
    }

    /// What `begin_move_project` makes of `old`: the state `new`.
    pub open spec fn begin_move_project_done(old: App, new: App) -> bool {
        &&& (match old.selected(old.focused_col) {
            Some(id) => new == (App {
                move_state: Some(
                    MoveState {
                        task_id: root_of(views(old.tasks@), id, old.tasks@.len() as nat),
                    },
                ),
                mode: Mode::Move,
                ..old
            }),
            None => new == old,
        })
    }

    /// Opens the move prompt for the tree of the cursor's task (its root).
    pub fn begin_move_project(&mut self)
        ensures
            App::begin_move_project_done(*old(self), *final(self)),
    {
        let col = self.focused_col;
        if let Some(id) = self.selected_task_id(col) {
            let root_id = root_task_id(&self.tasks, id);
            self.move_state = Some(MoveState { task_id: root_id });
            self.mode = Mode::Move;
        }
    }

    /// What `move_to_slot` makes of `old`: the state `new`.
    pub open spec fn move_to_slot_done(old: App, new: App, slot: usize) -> bool {
        &&& (views(new.tasks@) == match old.move_state {
            Some(ms) => set_project_spec(
                views(old.tasks@),
                ms.task_id,
                match old.projects@[slot as int] {
                    Some(p) => p@,
                    None => Seq::empty(),
                },
                old.tasks@.len() as nat,
            ),
            None => views(old.tasks@),
        })
        &&& ((new == (App { tasks: new.tasks, move_state: None, mode: Mode::Normal, ..old })))
    }

    /// Closes the move prompt, giving the chosen tree the project of slot
    /// `slot` (none when the slot is not named).
    pub fn move_to_slot(&mut self, slot: usize)
        requires
            slot < 10,
        ensures
            App::move_to_slot_done(*old(self), *final(self), slot),
    {
        let taken = self.move_state.take();
        if let Some(ms) = taken {
            let name = match &self.projects[slot] {
                Some(p) => p.clone(),
                None => String::new(),
            };
            self.set_project_recursive(ms.task_id, name);
        }
        self.mode = Mode::Normal;
    }
}

} // verus!
