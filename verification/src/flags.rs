//! Flag highlights: three flags a task can carry, shown as pills that can
//! be switched on, set on the cursor's task, and cleared everywhere.

use vstd::prelude::*;

use crate::board::App;
use crate::edit::update_first;
use crate::task::{TaskView, views};
use crate::text::{flag_clear_prompt, join_decimals, joined_decimals};

verus! {

/// The first pill switched on from `i` on.
pub open spec fn first_active(a: Seq<bool>, i: int) -> Option<usize>
    decreases a.len() - i,
    when 0 <= i
{
    if i >= a.len() {
        None
    } else if a[i] {
        Some(i as usize)
    } else {
        first_active(a, i + 1)
    }
}

/// The numbers (from 1) of the pills among the first `k` that are on.
pub open spec fn active_numbers(a: Seq<bool>, k: int) -> Seq<usize>
    decreases k,
{
    if k <= 0 {
        Seq::empty()
    } else if a[k - 1] {
        active_numbers(a, k - 1).push(k as usize)
    } else {
        active_numbers(a, k - 1)
    }
}

/// The mask that keeps every bit but those of the pills switched on.
pub open spec fn keep_mask(a: Seq<bool>) -> u8 {
    (if a[0] { 0xfeu8 } else { 0xffu8 }) & (if a[1] { 0xfdu8 } else { 0xffu8 }) & (if a[2] {
        0xfbu8
    } else {
        0xffu8
    })
}

/// `t` with its flags masked by `m`.
pub open spec fn masked(t: TaskView, m: u8) -> TaskView {
    TaskView { flags: t.flags & m, ..t }
}

/// `t` with flag `f` flipped.
pub open spec fn flipped(t: TaskView, f: usize) -> TaskView {
    TaskView { flags: t.flags ^ ((1u8 << f) as u8), ..t }
}

impl App {
    /// What `toggle_flag_pill` makes of `old`: the state `new`.
    pub open spec fn toggle_flag_pill_done(old: App, new: App, idx: usize) -> bool {
        &&& (new.flag_active@ == old.flag_active@.update(idx as int, !old.flag_active@[idx as int]))
        &&& (new.active_highlight == (if new.flag_active@[idx as int] {
            Some(idx)
        } else {
            first_active(new.flag_active@, 0)
        }))
        &&& ((new == (App {
            flag_active: new.flag_active,
            active_highlight: new.active_highlight,
            ..old
        })))
    }

    /// Switches pill `idx` on or off; the flag `f` then applies is the one just
    /// switched on, else the first pill still on.
    pub fn toggle_flag_pill(&mut self, idx: usize)
        requires
            idx < 3,
        ensures
            App::toggle_flag_pill_done(*old(self), *final(self), idx),
    {
        self.flag_active[idx] = !self.flag_active[idx];
        if self.flag_active[idx] {
            self.active_highlight = Some(idx);
        } else {
            let mut i: usize = 0;
            while i < 3 && !self.flag_active[i]
                invariant
                    i <= 3,
                    self.flag_active@.len() == 3,
                    first_active(self.flag_active@, 0) == first_active(self.flag_active@, i as int),
                decreases 3 - i,
            {
                i = i + 1;
            }
            self.active_highlight = if i < 3 {
                Some(i)
            } else {
                None
            };
        }
    }

    /// What `flag_selected_task` makes of `old`: the state `new` and its result.
    pub open spec fn flag_selected_task_done(old: App, new: App, changed: bool) -> bool {
        &&& (changed == (old.active_highlight is Some && (old.selected(old.focused_col) matches Some(
            id,
        ) && old.find(id) is Some)))
        &&& (changed ==> views(new.tasks@) == update_first(
            views(old.tasks@),
            old.selected(old.focused_col)->0,
            |t: TaskView| flipped(t, old.active_highlight->0),
        ))
        &&& (!changed ==> new == old)
        &&& ((new == (App { tasks: new.tasks, ..old })))
    }

    /// Flips the applied flag on the cursor's task; says whether a task changed.
    pub fn flag_selected_task(&mut self) -> (changed: bool)
        requires
            old(self).active_highlight matches Some(f) ==> f < 8,
        ensures
            App::flag_selected_task_done(*old(self), *final(self), changed),
    {
        let flag_idx = match self.active_highlight {
            Some(f) => f,
            None => {
                return false;
            },
        };
        let col = self.focused_col;
        let id = match self.selected_task_id(col) {
            Some(id) => id,
            None => {
                return false;
            },
        };
        let ghost ts = views(self.tasks@);
        let bit: u8 = 1u8 << (flag_idx as u8);
        proof {
            assert(bit == (1u8 << flag_idx) as u8) by (bit_vector)
                requires
                    flag_idx < 8,
                    bit == 1u8 << (flag_idx as u8),
            ;
        }
        if let Some(task) = self.task_mut(id) {
            task.flags = task.flags ^ bit;
            proof {
                assert(views(self.tasks@) =~= update_first(ts, id, |t: TaskView| flipped(t, flag_idx)));
            }
            true
        } else {
            false
        }
    }

    /// What `begin_flag_clear` makes of `old`: the state `new`.
    pub open spec fn begin_flag_clear_done(old: App, new: App) -> bool {
        &&& (active_numbers(old.flag_active@, 3).len() == 0 ==> new == old)
        &&& (active_numbers(old.flag_active@, 3).len() > 0 ==> {
            &&& new.status_message matches Some(m) && m@ == "Clear flag "@ + joined_decimals(
                active_numbers(old.flag_active@, 3),
                ", "@,
            ) + " highlights? (Enter to confirm, Esc to cancel)"@
            &&& (new == (App {
                flag_clear_confirm: true,
                status_message: new.status_message,
                ..old
            }))
        })
    }

    /// Asks to confirm clearing the flags of every pill switched on; does
    /// nothing when none is on.
    pub fn begin_flag_clear(&mut self)
        ensures
            App::begin_flag_clear_done(*old(self), *final(self)),
    {
        let ghost a = self.flag_active@;
        let mut nums: Vec<usize> = Vec::new();
        let mut i: usize = 0;
        while i < 3
            invariant
                i <= 3,
                a == self.flag_active@,
                a.len() == 3,
                nums@ == active_numbers(a, i as int),
            decreases 3 - i,
        {
            if self.flag_active[i] {
                nums.push(i + 1);
            }
            i = i + 1;
        }
        if nums.len() == 0 {
            return;
        }
        let text = join_decimals(&nums, ", ");
        self.flag_clear_confirm = true;
        self.status_message = Some(flag_clear_prompt(text.as_str()));
    }

    /// What `confirm_flag_clear` makes of `old`: the state `new`.
    pub open spec fn confirm_flag_clear_done(old: App, new: App) -> bool {
        &&& (views(new.tasks@) == views(old.tasks@).map_values(
            |t: TaskView| masked(t, keep_mask(old.flag_active@)),
        ))
        &&& ((new == (App {
            tasks: new.tasks,
            flag_clear_confirm: false,
            status_message: None,
            ..old
        })))
    }

    /// Clears, on every task, the flags of the pills switched on, and closes
    /// the confirmation.
    pub fn confirm_flag_clear(&mut self)
        ensures
            App::confirm_flag_clear_done(*old(self), *final(self)),
    {
        let m0: u8 = if self.flag_active[0] { 0xfe } else { 0xff };
        let m1: u8 = if self.flag_active[1] { 0xfd } else { 0xff };
        let m2: u8 = if self.flag_active[2] { 0xfb } else { 0xff };
        let mask: u8 = m0 & m1 & m2;
        let ghost ts = views(self.tasks@);
        let ghost target = ts.map_values(|t: TaskView| masked(t, keep_mask(old(self).flag_active@)));
        let mut k: usize = 0;
        while k < self.tasks.len()
            invariant
                k <= self.tasks@.len(),
                self.tasks@.len() == ts.len(),
                mask == keep_mask(old(self).flag_active@),
                target == ts.map_values(|t: TaskView| masked(t, keep_mask(old(self).flag_active@))),
                forall|j: int| 0 <= j < k ==> #[trigger] views(self.tasks@)[j] == target[j],
                forall|j: int| k <= j < ts.len() ==> #[trigger] views(self.tasks@)[j] == ts[j],
                (*self == (App { tasks: self.tasks, ..*old(self) })),
            decreases self.tasks@.len() - k,
        {
            let ghost before = self.tasks@;
            let f = self.tasks[k].flags;
            self.tasks[k].flags = f & mask;
            proof {
                assert(views(before)[k as int] == ts[k as int]);
                assert(before[k as int]@ == ts[k as int]);
                assert(self.tasks@[k as int]@ == masked(before[k as int]@, mask));
                assert(views(self.tasks@)[k as int] == target[k as int]);
                assert forall|j: int| 0 <= j < k + 1 implies #[trigger] views(self.tasks@)[j] == target[j] by {
                    if j < k {
                        assert(self.tasks@[j] == before[j]);
                        assert(views(before)[j] == target[j]);
                    }
                }
                assert forall|j: int| k + 1 <= j < ts.len() implies #[trigger] views(self.tasks@)[j] == ts[j] by {
                    assert(self.tasks@[j] == before[j]);
                    assert(views(before)[j] == ts[j]);
                }
            }
            k = k + 1;
        }
        proof {
            assert(views(self.tasks@) =~= target);
        }
        self.flag_clear_confirm = false;
        self.status_message = None;
    }

    /// What `cancel_flag_clear` makes of `old`: the state `new`.
    pub open spec fn cancel_flag_clear_done(old: App, new: App) -> bool {
        &&& ((new == (App { flag_clear_confirm: false, status_message: None, ..old })))
    }

    /// Closes the flag-clear confirmation without clearing anything.
    pub fn cancel_flag_clear(&mut self)
        ensures
            App::cancel_flag_clear_done(*old(self), *final(self)),
    {
        self.flag_clear_confirm = false;
        self.status_message = None;
    }
}

} // verus!
