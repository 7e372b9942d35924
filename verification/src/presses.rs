//! Double key presses (`gg`, `dd`): a second press within half a second.

use vstd::prelude::*;

use crate::board::App;
use crate::outside::{elapsed_millis, instant_now, Instant};

verus! {

/// The longest gap, in milliseconds, between the two presses of a double press.
pub const DOUBLE_PRESS_MS: u128 = 500;

/// Whether a press that comes `elapsed_ms` after the previous one (none when
/// there was no previous press) completes a double press.
pub fn double_press(elapsed_ms: Option<u128>) -> (r: bool)
    ensures
        r == (elapsed_ms matches Some(ms) && ms < DOUBLE_PRESS_MS),
{
    match elapsed_ms {
        Some(ms) => ms < DOUBLE_PRESS_MS,
        None => false,
    }
}

/// How long ago `prev` was, in milliseconds, when there is one.
fn since(prev: &Option<Instant>) -> (r: Option<u128>)
    ensures
        prev is None <==> r is None,
{
    match prev {
        Some(t) => Some(elapsed_millis(t)),
        None => None,
    }
}

impl App {
    /// `new` is `old` after an undo point was saved and the cursor's task, if
    /// any, deleted.
    pub open spec fn dd_fired(old: App, new: App) -> bool {
        exists|saved: App|
            {
                &&& #[trigger] App::undo_saved(old, saved)
                &&& match old.selected(old.focused_col) {
                    Some(id) => App::deleted(saved, new, id),
                    None => new == saved,
                }
            }
    }

    /// What `consume_gg` makes of `old`: the state `new` and its result.
    pub open spec fn consume_gg_done(old: App, new: App, double: bool) -> bool {
        &&& (old.last_g_press is None ==> !double)
        &&& (double ==> new.last_g_press is None)
        &&& (!double ==> new.last_g_press is Some)
        &&& ((new == (App { last_g_press: new.last_g_press, ..old })))
    }

    /// Handles a `g` press: true when it completes `gg`. A first press is
    /// remembered; a completed pair is forgotten.
    pub fn consume_gg(&mut self) -> (double: bool)
        ensures
            App::consume_gg_done(*old(self), *final(self), double),
    {
        let now = instant_now();
        let prev = self.last_g_press.take();
        let double = double_press(since(&prev));
        if !double {
            self.last_g_press = Some(now);
        }
        double
    }

    /// What a `d` press makes of `old` when the previous `d` press was
    /// `gap` milliseconds earlier (none when there was none): it completes
    /// `dd` exactly when that gap is under half a second, and then saves an
    /// undo point and deletes the cursor's task; otherwise it remembers the
    /// press and asks for a second one.
    pub open spec fn d_press_done(old: App, new: App, gap: Option<u128>, fired: bool) -> bool {
        &&& fired == (gap matches Some(ms) && ms < DOUBLE_PRESS_MS)
        &&& (fired ==> App::dd_fired(App { last_d_press: None, ..old }, new))
        &&& (!fired ==> {
            &&& new.last_d_press is Some
            &&& new.status_message matches Some(m) && m@ == "d again to delete"@
            &&& (new == (App {
                last_d_press: new.last_d_press,
                status_message: new.status_message,
                ..old
            }))
        })
    }

    /// Handles a `d` press that comes `gap` milliseconds after the previous
    /// one (none when there was none): see `d_press_done`.
    pub fn press_d(&mut self, gap: Option<u128>) -> (fired: bool)
        ensures
            App::d_press_done(*old(self), *final(self), gap, fired),
    {
        let now = instant_now();
        self.last_d_press = None;
        let double = double_press(gap);
        if double {
            let ghost before = *self;
            self.push_undo();
            let ghost saved = *self;
            proof {
                App::lemma_view_frame(&*old(self), &saved);
            }
            if let Some(id) = self.selected_task_id(self.focused_col) {
                self.delete_task(id);
            }
            proof {
                let o = App { last_d_press: None, ..*old(self) };
                assert(App::undo_saved(o, saved));
                App::lemma_view_frame(&o, &saved);
            }
            true
        } else {
            self.last_d_press = Some(now);
            self.status_message = Some("d again to delete".to_owned());
            false
        }
    }

    /// What `try_delete_dd` makes of `old`: what a `d` press does after
    /// whatever gap the clock measured since the previous one (none when
    /// there was none).
    pub open spec fn try_delete_dd_done(old: App, new: App, fired: bool) -> bool {
        exists|gap: Option<u128>|
            (gap is None <==> old.last_d_press is None) && #[trigger] App::d_press_done(old, new, gap, fired)
    }

    /// Handles a `d` press: when it completes `dd` (a second press within
    /// half a second), saves an undo point and deletes the cursor's task
    /// (true); otherwise remembers the press and asks for a second one
    /// (false).
    pub fn try_delete_dd(&mut self) -> (fired: bool)
        ensures
            App::try_delete_dd_done(*old(self), *final(self), fired),
    {
        let gap = since(&self.last_d_press);
        let fired = self.press_d(gap);
        proof {
            assert(App::d_press_done(*old(self), *self, gap, fired));
        }
        fired
    }

    /// Remembers a `z` press, the start of a fold chord.
    pub fn remember_z(&mut self)
        ensures
            final(self).last_z_press is Some,
            (*final(self) == (App { last_z_press: final(self).last_z_press, ..*old(self) })),
    {
        self.last_z_press = Some(instant_now());
    }

    /// Takes the remembered `z` press: true when one was remembered and the
    /// key now pressed comes within half a second of it.
    pub fn consume_z(&mut self) -> (chord: bool)
        ensures
            old(self).last_z_press is None ==> !chord,
            (*final(self) == (App { last_z_press: None, ..*old(self) })),
    {
        let prev = self.last_z_press.take();
        double_press(since(&prev))
    }
}

} // verus!
