//! The card finder screen: a query, its results and the highlighted result,
//! driven by key presses.

use vstd::prelude::*;

use crate::cards::{Finder, SearchResult};
use crate::keys::{KeyCode, KeyPress};

verus! {

/// What the finder screen does after a key.
pub enum FinderAction {
    Continue,
    /// Open the card with this identifier for editing.
    Edit(String),
    Exit,
}

/// What a key means on the finder screen.
pub enum FinderKey {
    Next,
    Prev,
    Quit,
    Type(char),
    Erase,
    Open,
    Ignore,
}

/// The meaning of `key`: Control+n, Tab and Down go to the next result;
/// Control+p, Shift+Tab and Up to the previous one; Control+c and Esc leave;
/// a character typed without Control or Alt extends the query; Backspace
/// shortens it; Enter opens the highlighted card.
pub open spec fn finder_key(key: KeyPress) -> FinderKey {
    match key.code {
        KeyCode::Char(c) => if key.ctrl && c == 'n' {
            FinderKey::Next
        } else if key.ctrl && c == 'p' {
            FinderKey::Prev
        } else if key.ctrl && c == 'c' {
            FinderKey::Quit
        } else if !key.ctrl && !key.alt {
            FinderKey::Type(c)
        } else {
            FinderKey::Ignore
        },
        KeyCode::Tab => if key.shift {
            FinderKey::Ignore
        } else {
            FinderKey::Next
        },
        KeyCode::BackTab => FinderKey::Prev,
        KeyCode::Backspace => FinderKey::Erase,
        KeyCode::Down => FinderKey::Next,
        KeyCode::Up => FinderKey::Prev,
        KeyCode::Enter => FinderKey::Open,
        KeyCode::Esc => FinderKey::Quit,
        _ => FinderKey::Ignore,
    }
}

/// The highlighted position after moving down among `len` results, wrapping
/// to the first.
pub open spec fn next_index(s: usize, len: nat) -> usize {
    if len == 0 {
        s
    } else {
        ((s + 1) % (len as int)) as usize
    }
}

/// The highlighted position after moving up among `len` results, wrapping to
/// the last.
pub open spec fn prev_index(s: usize, len: nat) -> usize {
    if len == 0 {
        s
    } else if s == 0 {
        (len - 1) as usize
    } else {
        (s - 1) as usize
    }
}

/// The finder screen's state.
pub struct FinderApp {
    pub finder: Finder,
    pub query: String,
    pub results: Vec<SearchResult>,
    pub selected_index: usize,
}

impl FinderApp {
    /// The screen opened on `initial_query`, with the first result highlighted.
    pub fn new(finder: Finder, initial_query: &str) -> (app: FinderApp)
        ensures
            app.finder == finder,
            app.query@ == initial_query@,
            finder.found(initial_query@, app.results@),
            app.selected_index == 0,
    {
        let results = finder.search(initial_query);
        FinderApp { finder, query: initial_query.to_string(), results, selected_index: 0 }
    }

    /// Replaces the query and searches again, highlighting the first result.
    pub fn update_query(&mut self, new_query: String)
        ensures
            final(self).query == new_query,
            final(self).finder == old(self).finder,
            old(self).finder.found(new_query@, final(self).results@),
            final(self).selected_index == 0,
    {
        self.results = self.finder.search(new_query.as_str());
        self.query = new_query;
        self.selected_index = 0;
    }

    /// Highlights the next result, wrapping to the first.
    pub fn select_next(&mut self)
        ensures
            final(self).selected_index == next_index(old(self).selected_index, old(self).results@.len()),
            final(self).finder == old(self).finder,
            final(self).query == old(self).query,
            final(self).results == old(self).results,
    {
        let len = self.results.len();
        if len == 0 {
            return;
        }
        self.selected_index = (self.selected_index % len + 1) % len;
        proof {
            let s = old(self).selected_index as int;
            let n = len as int;
            assert((s % n + 1) % n == (s + 1) % n) by {
                vstd::arithmetic::div_mod::lemma_add_mod_noop(s, 1, n);
                if n > 1 {
                    vstd::arithmetic::div_mod::lemma_small_mod(1nat, n as nat);
                } else {
                    assert(n == 1);
                    assert((s % 1 + 1) % 1 == 0 && (s + 1) % 1 == 0);
                }
            }
        }
    }

    /// Highlights the previous result, wrapping to the last.
    pub fn select_prev(&mut self)
        ensures
            final(self).selected_index == prev_index(old(self).selected_index, old(self).results@.len()),
            final(self).finder == old(self).finder,
            final(self).query == old(self).query,
            final(self).results == old(self).results,
    {
        let len = self.results.len();
        if len == 0 {
            return;
        }
        if self.selected_index == 0 {
            self.selected_index = len - 1;
        } else {
            self.selected_index = self.selected_index - 1;
        }
    }

    /// Handles one key; see `finder_key` for what each key means.
    pub fn handle_key_event(&mut self, key: KeyPress) -> (action: FinderAction)
        ensures
            final(self).finder == old(self).finder,
            match finder_key(key) {
                FinderKey::Next => action is Continue && final(self).selected_index == next_index(
                    old(self).selected_index,
                    old(self).results@.len(),
                ) && final(self).results == old(self).results && final(self).query == old(self).query,
                FinderKey::Prev => action is Continue && final(self).selected_index == prev_index(
                    old(self).selected_index,
                    old(self).results@.len(),
                ) && final(self).results == old(self).results && final(self).query == old(self).query,
                FinderKey::Quit => action is Exit && *final(self) == *old(self),
                FinderKey::Type(c) => action is Continue && final(self).query@ == old(self).query@.push(c)
                    && old(self).finder.found(final(self).query@, final(self).results@)
                    && final(self).selected_index == 0,
                FinderKey::Erase => action is Continue && final(self).query@ == (if old(self).query@.len() > 0 {
                    old(self).query@.drop_last()
                } else {
                    old(self).query@
                }) && old(self).finder.found(final(self).query@, final(self).results@)
                    && final(self).selected_index == 0,
                FinderKey::Open => *final(self) == *old(self) && if old(self).selected_index < old(self).results@.len() {
                    action matches FinderAction::Edit(id) && id@ == old(self).results@[old(self).selected_index as int].card.id@
                } else {
                    action is Continue
                },
                FinderKey::Ignore => action is Continue && *final(self) == *old(self),
            },
    {
        let is_char = match key.code {
            KeyCode::Char(_) => true,
            _ => false,
        };
        if is_char {
            let c = match key.code {
                KeyCode::Char(c) => c,
                _ => ' ',
            };
            if key.ctrl && c == 'n' {
                self.select_next();
                FinderAction::Continue
            } else if key.ctrl && c == 'p' {
                self.select_prev();
                FinderAction::Continue
            } else if key.ctrl && c == 'c' {
                FinderAction::Exit
            } else if !key.ctrl && !key.alt {
                let mut q = self.query.clone();
                crate::review::push_char(&mut q, c);
                self.update_query(q);
                FinderAction::Continue
            } else {
                FinderAction::Continue
            }
        } else {
            match key.code {
                KeyCode::Tab => {
                    if !key.shift {
                        self.select_next();
                    }
                    FinderAction::Continue
                },
                KeyCode::BackTab => {
                    self.select_prev();
                    FinderAction::Continue
                },
                KeyCode::Backspace => {
                    let mut q = self.query.clone();
                    crate::review::pop_char(&mut q);
                    self.update_query(q);
                    FinderAction::Continue
                },
                KeyCode::Down => {
                    self.select_next();
                    FinderAction::Continue
                },
                KeyCode::Up => {
                    self.select_prev();
                    FinderAction::Continue
                },
                KeyCode::Enter => {
                    if self.selected_index < self.results.len() {
                        FinderAction::Edit(self.results[self.selected_index].card.id.clone())
                    } else {
                        FinderAction::Continue
                    }
                },
                KeyCode::Esc => FinderAction::Exit,
                _ => FinderAction::Continue,
            }
        }
    }
}

} // verus!
