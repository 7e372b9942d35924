//! Keys of the task board: what each key does in each mode.

use vstd::prelude::*;

use crate::board::{App, BulkInsertStep, Column, Mode, ViewMode, column_index, same_text};
use crate::edit::swap_down_safe_in;
use crate::kanban::{deref_all, first_pos, pos_from};
use crate::keys::{KeyCode, KeyPress};
use crate::task::{Status, TaskView, views};
use crate::text::concat;
use crate::tree::{find_index, lemma_first_index, lookup, parent_id_of, parent_of};

verus! {

/// What the caller does after a key: leave, save the tasks, or nothing more.
#[derive(Debug, Clone, Copy, PartialEq, Eq, Structural)]
pub enum AppAction {
    Quit,
    Save,
    /// Save a snapshot of the board.
    Snapshot,
    /// Archive the Done tasks the confirmation was asked for.
    Archive,
    /// Open the snapshot under the browser's cursor.
    LoadSnapshot,
    Nothing,
}

/// What a key asks for.
#[derive(Debug, Clone, Copy, PartialEq, Eq, Structural)]
pub enum Command {
    Nothing,
    Quit,
    OpenHelp,
    CloseHelp,
    Down,
    Up,
    ColLeft,
    ColRight,
    MoveLeft,
    MoveRight,
    DoingDown,
    DoingUp,
    CycleSort,
    ToTreeSelected,
    ToTreeLast,
    ToBoard,
    LeaveTree,
    PrevProject,
    NextProject,
    InsertAfter,
    InsertBefore,
    EditStart,
    EditEnd,
    DeletePress,
    Undo,
    Redo,
    Indent,
    Outdent,
    SwapDown,
    SwapUp,
    MoveProject,
    BulkInsert,
    Fold,
    ToggleFold,
    GPress,
    ZPress,
    Last,
    Visual,
    ToggleDoing,
    SlotKey(usize),
    InboxKey,
    EnableAll,
    DisableAll,
    ProjectEdit,
    FlagPill(usize),
    FlagTask,
    FlagClear,
    ConfirmFlagClear,
    CancelFlagClear,
    Snapshot,
    BeginArchive,
    ConfirmArchive,
    CancelArchive,
    InsertCommit,
    InsertCancel,
    AskDiscard,
    DiscardYes,
    DiscardNo,
    InsertIndent,
    InsertUnindent,
    InsertType(char),
    InsertErase,
    EditCommit,
    EditCancel,
    EditLeft,
    EditRight,
    EditType(char),
    EditErase,
    BulkCancel,
    BulkNumber,
    BulkCommit,
    BulkType(char),
    BulkErase,
    VisualExit,
    VisualUp,
    VisualDown,
    VisualDelete,
    VisualDoing,
    VisualDone,
    MoveTo(usize),
    MoveCancel,
    SlotNext,
    SlotPrev,
    SlotCommit,
    SlotType(char),
    SlotErase,
    SnapUp,
    SnapDown,
    SnapClose,
    SnapOpen,
    ViewerUp,
    ViewerDown,
    ViewerClose,
    SearchBegin,
    SearchClear,
    SearchNext,
    SearchPrev,
    SearchCommit,
    SearchCancel,
    SearchType(char),
    SearchErase,
}

/// The project slot of a digit key: `1` to `9` are the first nine, `0` the tenth.
pub open spec fn slot_of_digit(c: char) -> Option<usize> {
    if '1' <= c <= '9' {
        Some((c as int - '1' as int) as usize)
    } else if c == '0' {
        Some(9)
    } else {
        None
    }
}

/// The project slot of a digit key.
pub fn digit_slot(c: char) -> (r: Option<usize>)
    ensures
        r == slot_of_digit(c),
{
    if '1' <= c && c <= '9' {
        Some((c as u32 - '1' as u32) as usize)
    } else if c == '0' {
        Some(9)
    } else {
        None
    }
}

/// The command of a key in the normal mode, by view, when no confirmation is
/// pending.
pub open spec fn normal_command(view: ViewMode, key: KeyPress) -> Command {
    match key.code {
        KeyCode::Char(c) => if key.ctrl {
            if c == 'r' {
                Command::BeginArchive
            } else {
                Command::Nothing
            }
        } else if c == 'q' {
            Command::Quit
        } else if c == '?' {
            Command::OpenHelp
        } else if c == 'j' {
            Command::Down
        } else if c == 'k' {
            Command::Up
        } else if c == '!' {
            Command::FlagPill(0)
        } else if c == '@' {
            Command::FlagPill(1)
        } else if c == '#' {
            Command::FlagPill(2)
        } else if c == 'f' {
            Command::FlagTask
        } else if c == 'F' {
            Command::FlagClear
        } else if slot_of_digit(c) is Some {
            Command::SlotKey(slot_of_digit(c)->0)
        } else if c == '`' {
            Command::InboxKey
        } else if c == '=' {
            Command::EnableAll
        } else if c == '-' {
            Command::DisableAll
        } else if c == 'P' {
            Command::ProjectEdit
        } else if c == 'S' {
            Command::Snapshot
        } else if c == 'u' {
            Command::Undo
        } else if c == 'r' {
            Command::Redo
        } else {
            match view {
                ViewMode::Board => if c == 'h' {
                    Command::ColLeft
                } else if c == 'l' {
                    Command::ColRight
                } else if c == 'H' {
                    Command::MoveLeft
                } else if c == 'L' {
                    Command::MoveRight
                } else if c == 'J' {
                    Command::DoingDown
                } else if c == 'K' {
                    Command::DoingUp
                } else if c == 's' {
                    Command::CycleSort
                } else {
                    Command::Nothing
                },
                ViewMode::Tree => if c == ',' {
                    Command::PrevProject
                } else if c == '.' {
                    Command::NextProject
                } else if c == 'o' {
                    Command::InsertAfter
                } else if c == 'O' {
                    Command::InsertBefore
                } else if c == 'i' {
                    Command::EditStart
                } else if c == 'a' {
                    Command::EditEnd
                } else if c == 'd' {
                    Command::DeletePress
                } else if c == '>' {
                    Command::Indent
                } else if c == '<' {
                    Command::Outdent
                } else if c == 'J' {
                    Command::SwapDown
                } else if c == 'K' {
                    Command::SwapUp
                } else if c == 'm' {
                    Command::MoveProject
                } else if c == 'A' || c == 'M' {
                    Command::BulkInsert
                } else if c == 'h' {
                    Command::Fold
                } else if c == 'l' {
                    Command::ToggleFold
                } else if c == 'g' {
                    Command::GPress
                } else if c == 'z' {
                    Command::ZPress
                } else if c == 'G' {
                    Command::Last
                } else if c == 'V' {
                    Command::Visual
                } else if c == ' ' {
                    Command::ToggleDoing
                } else if c == '/' {
                    Command::SearchBegin
                } else if c == 'n' {
                    Command::SearchNext
                } else if c == 'N' {
                    Command::SearchPrev
                } else {
                    Command::Nothing
                },
            }
        },
        KeyCode::Down => Command::Down,
        KeyCode::Up => Command::Up,
        KeyCode::Left => match view {
            ViewMode::Board => Command::ColLeft,
            ViewMode::Tree => Command::Nothing,
        },
        KeyCode::Right => match view {
            ViewMode::Board => Command::ColRight,
            ViewMode::Tree => Command::Nothing,
        },
        KeyCode::Enter => match view {
            ViewMode::Board => Command::ToTreeSelected,
            ViewMode::Tree => Command::ToBoard,
        },
        KeyCode::Tab => match view {
            ViewMode::Board => Command::ToTreeLast,
            ViewMode::Tree => Command::LeaveTree,
        },
        KeyCode::Backspace => match view {
            ViewMode::Board => Command::Nothing,
            ViewMode::Tree => Command::LeaveTree,
        },
        KeyCode::Esc => match view {
            ViewMode::Board => Command::Nothing,
            ViewMode::Tree => Command::SearchClear,
        },
        _ => Command::Nothing,
    }
}

fn normal_command_of(view: ViewMode, key: KeyPress) -> (r: Command)
    ensures
        r == normal_command(view, key),
{
    match key.code {
        KeyCode::Char(c) => {
            if key.ctrl {
                return if c == 'r' { Command::BeginArchive } else { Command::Nothing };
            }
            if c == 'q' {
                return Command::Quit;
            }
            if c == '?' {
                return Command::OpenHelp;
            }
            if c == 'j' {
                return Command::Down;
            }
            if c == 'k' {
                return Command::Up;
            }
            if c == '!' {
                return Command::FlagPill(0);
            }
            if c == '@' {
                return Command::FlagPill(1);
            }
            if c == '#' {
                return Command::FlagPill(2);
            }
            if c == 'f' {
                return Command::FlagTask;
            }
            if c == 'F' {
                return Command::FlagClear;
            }
            if let Some(slot) = digit_slot(c) {
                return Command::SlotKey(slot);
            }
            if c == '`' {
                return Command::InboxKey;
            }
            if c == '=' {
                return Command::EnableAll;
            }
            if c == '-' {
                return Command::DisableAll;
            }
            if c == 'P' {
                return Command::ProjectEdit;
            }
            if c == 'S' {
                return Command::Snapshot;
            }
            if c == 'u' {
                return Command::Undo;
            }
            if c == 'r' {
                return Command::Redo;
            }
            match view {
                ViewMode::Board => {
                    if c == 'h' {
                        Command::ColLeft
                    } else if c == 'l' {
                        Command::ColRight
                    } else if c == 'H' {
                        Command::MoveLeft
                    } else if c == 'L' {
                        Command::MoveRight
                    } else if c == 'J' {
                        Command::DoingDown
                    } else if c == 'K' {
                        Command::DoingUp
                    } else if c == 's' {
                        Command::CycleSort
                    } else {
                        Command::Nothing
                    }
                },
                ViewMode::Tree => {
                    if c == ',' {
                        Command::PrevProject
                    } else if c == '.' {
                        Command::NextProject
                    } else if c == 'o' {
                        Command::InsertAfter
                    } else if c == 'O' {
                        Command::InsertBefore
                    } else if c == 'i' {
                        Command::EditStart
                    } else if c == 'a' {
                        Command::EditEnd
                    } else if c == 'd' {
                        Command::DeletePress
                    } else if c == '>' {
                        Command::Indent
                    } else if c == '<' {
                        Command::Outdent
                    } else if c == 'J' {
                        Command::SwapDown
                    } else if c == 'K' {
                        Command::SwapUp
                    } else if c == 'm' {
                        Command::MoveProject
                    } else if c == 'A' || c == 'M' {
                        Command::BulkInsert
                    } else if c == 'h' {
                        Command::Fold
                    } else if c == 'l' {
                        Command::ToggleFold
                    } else if c == 'g' {
                        Command::GPress
                    } else if c == 'z' {
                        Command::ZPress
                    } else if c == 'G' {
                        Command::Last
                    } else if c == 'V' {
                        Command::Visual
                    } else if c == ' ' {
                        Command::ToggleDoing
                    } else if c == '/' {
                        Command::SearchBegin
                    } else if c == 'n' {
                        Command::SearchNext
                    } else if c == 'N' {
                        Command::SearchPrev
                    } else {
                        Command::Nothing
                    }
                },
            }
        },
        KeyCode::Down => Command::Down,
        KeyCode::Up => Command::Up,
        KeyCode::Left => match view {
            ViewMode::Board => Command::ColLeft,
            ViewMode::Tree => Command::Nothing,
        },
        KeyCode::Right => match view {
            ViewMode::Board => Command::ColRight,
            ViewMode::Tree => Command::Nothing,
        },
        KeyCode::Enter => match view {
            ViewMode::Board => Command::ToTreeSelected,
            ViewMode::Tree => Command::ToBoard,
        },
        KeyCode::Tab => match view {
            ViewMode::Board => Command::ToTreeLast,
            ViewMode::Tree => Command::LeaveTree,
        },
        KeyCode::Backspace => match view {
            ViewMode::Board => Command::Nothing,
            ViewMode::Tree => Command::LeaveTree,
        },
        KeyCode::Esc => match view {
            ViewMode::Board => Command::Nothing,
            ViewMode::Tree => Command::SearchClear,
        },
        _ => Command::Nothing,
    }
}

/// The value of a decimal numeral, `None` when a character is not a digit.
pub open spec fn digits_value(s: Seq<char>) -> Option<nat>
    decreases s.len(),
{
    if s.len() == 0 {
        Some(0)
    } else {
        match digits_value(s.drop_last()) {
            Some(v) => if '0' <= s.last() <= '9' {
                Some(v * 10 + (s.last() as nat - '0' as nat) as nat)
            } else {
                None
            },
            None => None,
        }
    }
}

/// The count a text gives as `usize::from_str` reads it: an optional `+`
/// then at least one digit, and no more than `usize::MAX`.
pub open spec fn count_value(s: Seq<char>) -> Option<nat> {
    let d = if s.len() > 0 && s[0] == '+' { s.drop_first() } else { s };
    if d.len() == 0 {
        None
    } else {
        match digits_value(d) {
            Some(v) => if v <= usize::MAX { Some(v) } else { None },
            None => None,
        }
    }
}

proof fn lemma_digits_prefix(s: Seq<char>, k: int)
    requires
        0 <= k < s.len(),
        digits_value(s.subrange(0, k)) is Some,
    ensures
        digits_value(s.subrange(0, k + 1)) == (if '0' <= s[k] <= '9' {
            Some((digits_value(s.subrange(0, k))->0 * 10 + (s[k] as nat - '0' as nat)) as nat)
        } else {
            None::<nat>
        }),
{
    assert(s.subrange(0, k + 1).drop_last() =~= s.subrange(0, k));
}

proof fn lemma_digits_none_extends(s: Seq<char>, k: int)
    requires
        0 <= k <= s.len(),
        digits_value(s.subrange(0, k)) is None,
    ensures
        digits_value(s) is None,
    decreases s.len() - k,
{
    if k < s.len() {
        assert(s.subrange(0, k + 1).drop_last() =~= s.subrange(0, k));
        lemma_digits_none_extends(s, k + 1);
    } else {
        assert(s.subrange(0, k) =~= s);
    }
}

proof fn lemma_digits_grow(s: Seq<char>, k: int)
    requires
        0 <= k <= s.len(),
        digits_value(s) is Some,
    ensures
        digits_value(s.subrange(0, k)) is Some,
        digits_value(s.subrange(0, k))->0 <= digits_value(s)->0,
    decreases s.len() - k,
{
    if k < s.len() {
        lemma_digits_grow(s, k + 1);
        assert(s.subrange(0, k + 1).drop_last() =~= s.subrange(0, k));
    } else {
        assert(s.subrange(0, k) =~= s);
    }
}

/// Reads a count as `usize::from_str` does.
pub fn parse_count(s: &str) -> (r: Option<usize>)
    ensures
        r matches Some(n) ==> count_value(s@) == Some(n as nat),
        r is None ==> count_value(s@) is None,
{
    let n = s.unicode_len();
    let mut start: usize = 0;
    if n > 0 && s.get_char(0) == '+' {
        start = 1;
    }
    let ghost d = if s@.len() > 0 && s@[0] == '+' { s@.drop_first() } else { s@ };
    proof {
        assert(d =~= s@.subrange(start as int, s@.len() as int));
    }
    if start >= n {
        return None;
    }
    let mut v: usize = 0;
    let mut k: usize = start;
    while k < n
        invariant
            start <= k <= n,
            n == s@.len(),
            d =~= s@.subrange(start as int, n as int),
            d == (if s@.len() > 0 && s@[0] == '+' { s@.drop_first() } else { s@ }),
            digits_value(d.subrange(0, k - start)) == Some(v as nat),
        decreases n - k,
    {
        let c = s.get_char(k);
        proof {
            assert(d[k - start] == c);
            lemma_digits_prefix(d, k - start);
        }
        if !('0' <= c && c <= '9') {
            proof {
                lemma_digits_none_extends(d, k - start + 1);
                assert(d.len() > 0);
                assert(digits_value(d) is None);
            }
            return None;
        }
        let digit = (c as u32 - '0' as u32) as usize;
        proof {
            assert(digit as nat == (c as nat - '0' as nat) as nat);
        }
        if v > (usize::MAX - digit) / 10 {
            proof {
                assert(d.len() > 0);
                let big = (v as nat * 10 + digit as nat) as nat;
                assert(big > usize::MAX) by (nonlinear_arith)
                    requires
                        v > (usize::MAX - digit) / 10,
                        digit <= 9,
                        big == v * 10 + digit,
                ;
                assert(digits_value(d.subrange(0, k - start + 1)) == Some(big));
                if digits_value(d) is Some {
                    lemma_digits_grow(d, k - start + 1);
                    assert(digits_value(d)->0 > usize::MAX);
                }
            }
            return None;
        }
        proof {
            assert(v * 10 + digit <= usize::MAX) by (nonlinear_arith)
                requires
                    v <= (usize::MAX - digit) / 10,
                    digit <= 9,
            ;
        }
        v = v * 10 + digit;
        k = k + 1;
    }
    proof {
        assert(d.subrange(0, n - start) =~= d);
    }
    Some(v)
}

/// `s` with `c` put before its character `pos`.
fn char_inserted(s: &String, pos: usize, c: char) -> (r: String)
    requires
        pos <= s@.len(),
    ensures
        r@ == s@.subrange(0, pos as int) + seq![c] + s@.subrange(pos as int, s@.len() as int),
{
    let n = s.as_str().unicode_len();
    let mut head = s.as_str().substring_char(0, pos).to_string();
    crate::review::push_char(&mut head, c);
    let tail = s.as_str().substring_char(pos, n);
    concat(head.as_str(), tail)
}

/// `s` without its character `pos`.
fn char_removed(s: &String, pos: usize) -> (r: String)
    requires
        pos < s@.len(),
    ensures
        r@ == s@.subrange(0, pos as int) + s@.subrange(pos + 1, s@.len() as int),
{
    let n = s.as_str().unicode_len();
    let head = s.as_str().substring_char(0, pos);
    let tail = s.as_str().substring_char(pos + 1, n);
    concat(head, tail)
}

/// What the caller does after a command (for the commands whose outcome
/// does not depend on the state).
pub open spec fn command_action(c: Command) -> AppAction {
    match c {
        Command::Quit => AppAction::Quit,
        Command::Snapshot => AppAction::Snapshot,
        Command::ConfirmArchive => AppAction::Archive,
        Command::SnapOpen => AppAction::LoadSnapshot,
        Command::MoveLeft | Command::MoveRight | Command::DoingDown | Command::DoingUp | Command::Undo
        | Command::Redo | Command::Indent | Command::Outdent | Command::SwapDown | Command::SwapUp
        | Command::ToggleDoing | Command::ConfirmFlagClear | Command::InsertCommit | Command::EditCommit
        | Command::BulkCommit | Command::VisualUp | Command::VisualDown | Command::VisualDelete
        | Command::VisualDoing | Command::VisualDone | Command::SlotCommit => AppAction::Save,
        Command::MoveTo(_) => AppAction::Save,
        _ => AppAction::Nothing,
    }
}

/// The commands that leave the state as it is.
pub open spec fn keeps_state(c: Command) -> bool {
    c is Nothing || c is Quit || c is Snapshot || c is ConfirmArchive || c is SnapOpen
}

impl App {
    /// Whether the title being edited differs from the task's title.
    pub open spec fn edit_changed(&self) -> bool {
        match self.edit {
            Some(e) => match self.find(e.task_id) {
                Some(t) => t.title != e.title@,
                None => false,
            },
            None => false,
        }
    }

    /// The command of `key` in the current mode.
    pub open spec fn key_command(&self, key: KeyPress) -> Command {
        match self.mode {
            Mode::Normal => if self.flag_clear_confirm {
                if key.code == KeyCode::Enter {
                    Command::ConfirmFlagClear
                } else {
                    Command::CancelFlagClear
                }
            } else if self.archive_done_confirm {
                if key.code == KeyCode::Enter {
                    Command::ConfirmArchive
                } else {
                    Command::CancelArchive
                }
            } else {
                normal_command(self.view_mode, key)
            },
            Mode::Help => if key.code == KeyCode::Esc || key.code == KeyCode::Char('q') || key.code == KeyCode::Char('?') {
                Command::CloseHelp
            } else {
                Command::Nothing
            },
            Mode::Insert => if self.insert is None && self.edit is None {
                Command::Nothing
            } else if self.discard_confirm {
                if key.code == KeyCode::Char('y') || key.code == KeyCode::Char('Y') {
                    Command::DiscardYes
                } else {
                    Command::DiscardNo
                }
            } else if self.insert is Some {
                match key.code {
                    KeyCode::Esc => if self.insert->0.title@.len() == 0 {
                        Command::InsertCancel
                    } else {
                        Command::AskDiscard
                    },
                    KeyCode::Enter => Command::InsertCommit,
                    KeyCode::Tab => Command::InsertIndent,
                    KeyCode::BackTab => Command::InsertUnindent,
                    KeyCode::Backspace => Command::InsertErase,
                    KeyCode::Char(c) => Command::InsertType(c),
                    _ => Command::Nothing,
                }
            } else {
                match key.code {
                    KeyCode::Esc => if self.edit_changed() {
                        Command::AskDiscard
                    } else {
                        Command::EditCancel
                    },
                    KeyCode::Enter => Command::EditCommit,
                    KeyCode::Left => Command::EditLeft,
                    KeyCode::Right => Command::EditRight,
                    KeyCode::Backspace => Command::EditErase,
                    KeyCode::Char(c) => Command::EditType(c),
                    _ => Command::Nothing,
                }
            },
            Mode::BulkInsert => match self.bulk_insert {
                Some(b) => match key.code {
                    KeyCode::Esc => Command::BulkCancel,
                    KeyCode::Enter => match b.step {
                        BulkInsertStep::Num => Command::BulkNumber,
                        BulkInsertStep::Prefix => Command::BulkCommit,
                    },
                    KeyCode::Backspace => Command::BulkErase,
                    KeyCode::Char(c) => Command::BulkType(c),
                    _ => Command::Nothing,
                },
                None => Command::Nothing,
            },
            Mode::Visual => match key.code {
                KeyCode::Esc => Command::VisualExit,
                KeyCode::Enter => Command::VisualDone,
                KeyCode::Down => Command::Down,
                KeyCode::Up => Command::Up,
                KeyCode::Char(c) => if c == 'j' {
                    Command::Down
                } else if c == 'k' {
                    Command::Up
                } else if c == 'V' {
                    Command::VisualExit
                } else if c == 'K' {
                    Command::VisualUp
                } else if c == 'J' {
                    Command::VisualDown
                } else if c == 'd' {
                    Command::VisualDelete
                } else if c == ' ' {
                    Command::VisualDoing
                } else if c == 'g' {
                    Command::GPress
                } else if c == 'G' {
                    Command::Last
                } else {
                    Command::Nothing
                },
                _ => Command::Nothing,
            },
            Mode::Move => match key.code {
                KeyCode::Esc => Command::MoveCancel,
                KeyCode::Char(c) => match slot_of_digit(c) {
                    Some(slot) => Command::MoveTo(slot),
                    None => Command::Nothing,
                },
                _ => Command::Nothing,
            },
            Mode::ProjectEdit => match key.code {
                KeyCode::Enter | KeyCode::Esc => Command::SlotCommit,
                KeyCode::Tab | KeyCode::Down => Command::SlotNext,
                KeyCode::BackTab | KeyCode::Up => Command::SlotPrev,
                KeyCode::Backspace => Command::SlotErase,
                KeyCode::Char(c) => Command::SlotType(c),
                _ => Command::Nothing,
            },
            Mode::Search => match key.code {
                KeyCode::Esc => Command::SearchCancel,
                KeyCode::Enter => Command::SearchCommit,
                KeyCode::Backspace => Command::SearchErase,
                KeyCode::Char(c) => Command::SearchType(c),
                _ => Command::Nothing,
            },
            Mode::SnapBrowser => match self.snap_popup {
                Some(p) => if p.viewer is Some {
                    match key.code {
                        KeyCode::Esc => Command::ViewerClose,
                        KeyCode::Down => Command::ViewerDown,
                        KeyCode::Up => Command::ViewerUp,
                        KeyCode::Char(c) => if c == 'q' {
                            Command::ViewerClose
                        } else if c == 'j' {
                            Command::ViewerDown
                        } else if c == 'k' {
                            Command::ViewerUp
                        } else {
                            Command::Nothing
                        },
                        _ => Command::Nothing,
                    }
                } else {
                    match key.code {
                        KeyCode::Esc => Command::SnapClose,
                        KeyCode::Down => Command::SnapDown,
                        KeyCode::Up => Command::SnapUp,
                        KeyCode::Enter | KeyCode::Right => Command::SnapOpen,
                        KeyCode::Char(c) => if c == 'q' {
                            Command::SnapClose
                        } else if c == 'j' {
                            Command::SnapDown
                        } else if c == 'k' {
                            Command::SnapUp
                        } else if c == 'l' {
                            Command::SnapOpen
                        } else {
                            Command::Nothing
                        },
                        _ => Command::Nothing,
                    }
                },
                None => if key.code == KeyCode::Esc {
                    Command::SnapClose
                } else {
                    Command::Nothing
                },
            },
        }
    }

    /// Whether the title being edited differs from the task's title.
    fn edit_title_changed(&self) -> (r: bool)
        ensures
            r == self.edit_changed(),
    {
        match &self.edit {
            Some(e) => match self.task_ref(e.task_id) {
                Some(t) => !same_text(t.title.as_str(), e.title.as_str()),
                None => false,
            },
            None => false,
        }
    }

    /// The command of `key` in the current mode.
    pub fn command_for(&self, key: KeyPress) -> (c: Command)
        ensures
            c == self.key_command(key),
    {
        match self.mode {
            Mode::Normal => {
                if self.flag_clear_confirm {
                    if key.code == KeyCode::Enter {
                        Command::ConfirmFlagClear
                    } else {
                        Command::CancelFlagClear
                    }
                } else if self.archive_done_confirm {
                    if key.code == KeyCode::Enter {
                        Command::ConfirmArchive
                    } else {
                        Command::CancelArchive
                    }
                } else {
                    normal_command_of(self.view_mode, key)
                }
            },
            Mode::Help => {
                if key.code == KeyCode::Esc || key.code == KeyCode::Char('q') || key.code == KeyCode::Char('?') {
                    Command::CloseHelp
                } else {
                    Command::Nothing
                }
            },
            Mode::Insert => {
                if self.insert.is_none() && self.edit.is_none() {
                    Command::Nothing
                } else if self.discard_confirm {
                    if key.code == KeyCode::Char('y') || key.code == KeyCode::Char('Y') {
                        Command::DiscardYes
                    } else {
                        Command::DiscardNo
                    }
                } else if self.insert.is_some() {
                    let empty = match &self.insert {
                        Some(st) => st.title.as_str().unicode_len() == 0,
                        None => true,
                    };
                    match key.code {
                        KeyCode::Esc => if empty {
                            Command::InsertCancel
                        } else {
                            Command::AskDiscard
                        },
                        KeyCode::Enter => Command::InsertCommit,
                        KeyCode::Tab => Command::InsertIndent,
                        KeyCode::BackTab => Command::InsertUnindent,
                        KeyCode::Backspace => Command::InsertErase,
                        KeyCode::Char(c) => Command::InsertType(c),
                        _ => Command::Nothing,
                    }
                } else {
                    match key.code {
                        KeyCode::Esc => if self.edit_title_changed() {
                            Command::AskDiscard
                        } else {
                            Command::EditCancel
                        },
                        KeyCode::Enter => Command::EditCommit,
                        KeyCode::Left => Command::EditLeft,
                        KeyCode::Right => Command::EditRight,
                        KeyCode::Backspace => Command::EditErase,
                        KeyCode::Char(c) => Command::EditType(c),
                        _ => Command::Nothing,
                    }
                }
            },
            Mode::BulkInsert => match &self.bulk_insert {
                Some(b) => match key.code {
                    KeyCode::Esc => Command::BulkCancel,
                    KeyCode::Enter => match b.step {
                        BulkInsertStep::Num => Command::BulkNumber,
                        BulkInsertStep::Prefix => Command::BulkCommit,
                    },
                    KeyCode::Backspace => Command::BulkErase,
                    KeyCode::Char(c) => Command::BulkType(c),
                    _ => Command::Nothing,
                },
                None => Command::Nothing,
            },
            Mode::Visual => match key.code {
                KeyCode::Esc => Command::VisualExit,
                KeyCode::Enter => Command::VisualDone,
                KeyCode::Down => Command::Down,
                KeyCode::Up => Command::Up,
                KeyCode::Char(c) => {
                    if c == 'j' {
                        Command::Down
                    } else if c == 'k' {
                        Command::Up
                    } else if c == 'V' {
                        Command::VisualExit
                    } else if c == 'K' {
                        Command::VisualUp
                    } else if c == 'J' {
                        Command::VisualDown
                    } else if c == 'd' {
                        Command::VisualDelete
                    } else if c == ' ' {
                        Command::VisualDoing
                    } else if c == 'g' {
                        Command::GPress
                    } else if c == 'G' {
                        Command::Last
                    } else {
                        Command::Nothing
                    }
                },
                _ => Command::Nothing,
            },
            Mode::Move => match key.code {
                KeyCode::Esc => Command::MoveCancel,
                KeyCode::Char(c) => match digit_slot(c) {
                    Some(slot) => Command::MoveTo(slot),
                    None => Command::Nothing,
                },
                _ => Command::Nothing,
            },
            Mode::ProjectEdit => match key.code {
                KeyCode::Enter | KeyCode::Esc => Command::SlotCommit,
                KeyCode::Tab | KeyCode::Down => Command::SlotNext,
                KeyCode::BackTab | KeyCode::Up => Command::SlotPrev,
                KeyCode::Backspace => Command::SlotErase,
                KeyCode::Char(c) => Command::SlotType(c),
                _ => Command::Nothing,
            },
            Mode::Search => match key.code {
                KeyCode::Esc => Command::SearchCancel,
                KeyCode::Enter => Command::SearchCommit,
                KeyCode::Backspace => Command::SearchErase,
                KeyCode::Char(c) => Command::SearchType(c),
                _ => Command::Nothing,
            },
            Mode::SnapBrowser => match &self.snap_popup {
                Some(p) => {
                    if p.viewer.is_some() {
                        match key.code {
                            KeyCode::Esc => Command::ViewerClose,
                            KeyCode::Down => Command::ViewerDown,
                            KeyCode::Up => Command::ViewerUp,
                            KeyCode::Char(c) => {
                                if c == 'q' {
                                    Command::ViewerClose
                                } else if c == 'j' {
                                    Command::ViewerDown
                                } else if c == 'k' {
                                    Command::ViewerUp
                                } else {
                                    Command::Nothing
                                }
                            },
                            _ => Command::Nothing,
                        }
                    } else {
                        match key.code {
                            KeyCode::Esc => Command::SnapClose,
                            KeyCode::Down => Command::SnapDown,
                            KeyCode::Up => Command::SnapUp,
                            KeyCode::Enter | KeyCode::Right => Command::SnapOpen,
                            KeyCode::Char(c) => {
                                if c == 'q' {
                                    Command::SnapClose
                                } else if c == 'j' {
                                    Command::SnapDown
                                } else if c == 'k' {
                                    Command::SnapUp
                                } else if c == 'l' {
                                    Command::SnapOpen
                                } else {
                                    Command::Nothing
                                }
                            },
                            _ => Command::Nothing,
                        }
                    }
                },
                None => {
                    if key.code == KeyCode::Esc {
                        Command::SnapClose
                    } else {
                        Command::Nothing
                    }
                },
            },
        }
    }

    /// The title edit cursor is within the title.
    pub open spec fn edit_cursor_ok(&self) -> bool {
        self.edit matches Some(e) ==> e.cursor_pos <= e.title@.len()
    }

    /// Whether `key` goes to a remembered `z` press: in the normal mode of
    /// the tree view, for a key of the tree (not a global one).
    pub open spec fn z_chord_pending(&self, key: KeyPress) -> bool {
        &&& self.mode is Normal
        &&& self.view_mode is Tree
        &&& self.last_z_press is Some
        &&& App::tree_key_command(self.key_command(key))
    }

    /// The commands of the keys that the tree view handles itself.
    pub open spec fn tree_key_command(c: Command) -> bool {
        App::command_group(c) == 1 || c is SearchNext || c is SearchPrev || c is PrevProject || c is NextProject
            || c is Nothing
    }

    /// Whether command `c` is one of `tree_key_command`.
    fn is_tree_key_command(c: Command) -> (r: bool)
        ensures
            r == App::tree_key_command(c),
    {
        match c {
            Command::InsertAfter | Command::InsertBefore | Command::EditStart | Command::EditEnd | Command::DeletePress | Command::Undo | Command::Redo | Command::Indent | Command::Outdent | Command::SwapDown | Command::SwapUp | Command::MoveProject | Command::BulkInsert | Command::Fold | Command::ToggleFold | Command::GPress | Command::ZPress | Command::Last | Command::Visual | Command::ToggleDoing => true,
            Command::SearchNext | Command::SearchPrev => true,
            Command::PrevProject | Command::NextProject | Command::Nothing => true,
            _ => false,
        }
    }

    /// Handles one key: works out its command (`key_command`) and carries it
    /// out, saying what the caller does next. A key of the tree that comes
    /// within half a second of a `z` press is the second key of a fold chord
    /// instead; a later one forgets the `z` press and is handled as usual.
    pub fn handle_key(&mut self, key: KeyPress) -> (a: AppAction)
        requires
            old(self).edit_cursor_ok(),
        ensures
            !old(self).z_chord_pending(key) ==> App::command_done(
                *old(self),
                *final(self),
                old(self).key_command(key),
                a,
            ),
            old(self).z_chord_pending(key) ==> {
                let cleared = App { last_z_press: None, ..*old(self) };
                ||| a is Nothing && App::z_chord_done(cleared, *final(self), key)
                ||| App::command_done(cleared, *final(self), old(self).key_command(key), a)
            },
            final(self).edit_cursor_ok(),
    {
        let c = self.command_for(key);
        let pending = match self.mode {
            Mode::Normal => match self.view_mode {
                ViewMode::Tree => self.last_z_press.is_some() && App::is_tree_key_command(c),
                ViewMode::Board => false,
            },
            _ => false,
        };
        if pending {
            let ghost before = *self;
            let chord = self.consume_z();
            proof {
                assert(self.key_command(key) == before.key_command(key));
            }
            if chord {
                self.run_z_chord(key);
                return AppAction::Nothing;
            }
        }
        self.run_command(c)
    }

    /// Whether `f` flips a flag: one is applied (a valid one) and the cursor
    /// is on a task.
    pub open spec fn flag_applies(&self) -> bool {
        &&& self.active_highlight matches Some(h) && h < 8
        &&& self.selected(self.focused_col) matches Some(id) && self.find(id) is Some
    }

    /// Whether `c` is a command of the search.
    pub open spec fn search_command(c: Command) -> bool {
        c is SearchBegin || c is SearchClear || c is SearchNext || c is SearchPrev || c is SearchCommit
            || c is SearchCancel || c is SearchType || c is SearchErase
    }

    /// `new` is what a command of the search makes of `old`.
    #[verifier::opaque]
    pub open spec fn search_command_done(old: App, new: App, c: Command) -> bool {
        &&& c is SearchBegin ==> App::search_begun(old, new)
        &&& c is SearchClear ==> (old.search is Some ==> App::search_cancelled(old, new)) && (old.search is None
            ==> new == old)
        &&& c is SearchNext ==> App::stepped(old, new, true)
        &&& c is SearchPrev ==> App::stepped(old, new, false)
        &&& c is SearchCommit ==> new == (App { mode: Mode::Normal, ..old })
        &&& c is SearchCancel ==> App::search_cancelled(old, new)
        &&& (c matches Command::SearchType(ch) ==> App::search_typed(old, new, ch))
        &&& c is SearchErase ==> App::search_erased(old, new)
    }

    /// A command outside the search says nothing through `search_command_done`.
    proof fn lemma_not_search(old: App, c: Command)
        requires
            !App::search_command(c),
        ensures
            forall|new: App| #[trigger] App::search_command_done(old, new, c),
    {
        reveal(App::search_command_done);
    }

    /// What a command of the views, filters and flags makes of `old`.
    #[verifier::opaque]
    pub open spec fn view_command_state(old: App, new: App, c: Command) -> bool {
        match c {
            Command::Down => match old.view_mode {
                ViewMode::Tree => App::navigate_tree_done(old, new, 1),
                ViewMode::Board => App::move_cursor_down_done(old, new),
            },
            Command::Up => match old.view_mode {
                ViewMode::Tree => App::navigate_tree_done(old, new, -1i32),
                ViewMode::Board => App::move_cursor_up_done(old, new),
            },
            Command::ColLeft => App::focus_prev_col_done(old, new),
            Command::ColRight => App::focus_next_col_done(old, new),
            Command::MoveLeft => App::move_selected_left_done(old, new),
            Command::MoveRight => App::move_selected_right_done(old, new),
            Command::DoingDown => App::kanban_doing_swap_done(old, new, 1),
            Command::DoingUp => if old.cursor@[1] == 0 || old.cursor@[1] < old.board_list(Column::Doing).len() {
                App::kanban_doing_swap_done(old, new, -1i32)
            } else {
                new == old
            },
            Command::CycleSort => App::cycle_sort_done(old, new),
            Command::ToTreeSelected => App::enter_planning_for_selected_done(old, new),
            Command::ToTreeLast => App::enter_planning_for_last_project_done(old, new),
            Command::ToBoard => App::enter_kanban_for_selected_done(old, new),
            Command::LeaveTree => App::exit_planning_done(old, new),
            Command::PrevProject => App::cycle_project_done(old, new, -1i32),
            Command::NextProject => App::cycle_project_done(old, new, 1),
            Command::SlotKey(slot) => if slot < 10 {
                match old.view_mode {
                    ViewMode::Board => App::enter_planning_for_slot_key_done(old, new, slot),
                    ViewMode::Tree => App::select_project_slot_done(old, new, slot),
                }
            } else {
                new == old
            },
            Command::InboxKey => match old.view_mode {
                ViewMode::Board => App::enter_planning_for_inbox_tree_done(old, new),
                ViewMode::Tree => App::select_inbox_done(old, new),
            },
            Command::EnableAll => App::enable_all_done(old, new),
            Command::DisableAll => App::disable_all_done(old, new),
            Command::ProjectEdit => App::begin_project_edit_done(old, new),
            Command::FlagPill(i) => if i < 3 {
                App::toggle_flag_pill_done(old, new, i)
            } else {
                new == old
            },
            Command::FlagTask => if (match old.active_highlight {
                Some(h) => h < 8,
                None => true,
            }) {
                exists|changed: bool| #[trigger] App::flag_selected_task_done(old, new, changed)
            } else {
                new == old
            },
            Command::FlagClear => App::begin_flag_clear_done(old, new),
            Command::ConfirmFlagClear => App::confirm_flag_clear_done(old, new),
            Command::CancelFlagClear => App::cancel_flag_clear_done(old, new),
            Command::BeginArchive => App::begin_archive_done_done(old, new),
            Command::CancelArchive => App::cancel_archive_done_done(old, new),
            _ => true,
        }
    }

    /// What a command that edits the tree makes of `old`.
    #[verifier::opaque]
    pub open spec fn tree_command_state(old: App, new: App, c: Command) -> bool {
        match c {
            Command::InsertAfter => if old.selection_found() {
                App::begin_insert_after_done(old, new)
            } else {
                new == old
            },
            Command::InsertBefore => if old.selection_found() {
                App::begin_insert_before_done(old, new)
            } else {
                new == old
            },
            Command::EditStart => App::begin_edit_done(old, new, false),
            Command::EditEnd => App::begin_edit_done(old, new, true),
            Command::DeletePress => exists|fired: bool| #[trigger] App::try_delete_dd_done(old, new, fired),
            Command::Outdent => App::make_root_done(old, new),
            Command::SwapDown => if old.swap_down_safe() {
                App::tree_swap_down_done(old, new)
            } else {
                new == old
            },
            Command::SwapUp => App::tree_swap_up_done(old, new),
            Command::MoveProject => App::begin_move_project_done(old, new),
            Command::BulkInsert => App::begin_bulk_insert_done(old, new),
            Command::Fold => App::fold_selected_done(old, new),
            Command::GPress => exists|mid: App, double: bool|
                #[trigger] App::consume_gg_done(old, mid, double) && if double {
                    App::tree_goto_first_done(mid, new)
                } else {
                    new == mid
                },
            Command::Last => App::tree_goto_last_done(old, new),
            Command::Visual => App::enter_visual_done(old, new),
            Command::ToggleDoing => App::tree_toggle_doing_done(old, new),
            _ => true,
        }
    }

    /// What a commit of a typed title makes of `old`.
    #[verifier::opaque]
    pub open spec fn entry_command_state(old: App, new: App, c: Command) -> bool {
        match c {
            Command::InsertCommit => App::commit_insert_done(old, new),
            Command::InsertIndent => App::indent_insert_done(old, new),
            Command::InsertUnindent => App::unindent_insert_done(old, new),
            Command::EditCommit => App::commit_edit_done(old, new),
            _ => true,
        }
    }

    /// `new` is `old` after the selected tasks were changed by `op`, from an
    /// undo point (nothing happens without a selection), and the visual mode
    /// left when `leave` is set.
    pub open spec fn visual_done(old: App, new: App, op: spec_fn(App, App) -> bool, leave: bool) -> bool {
        exists|saved: App, changed: App|
            {
                &&& #[trigger] App::visual_steps(old, saved, changed, op)
                &&& if leave {
                    App::exit_visual_done(changed, new)
                } else {
                    new == changed
                }
            }
    }

    /// The undo point `saved` and the changed state `changed` of `visual_done`.
    pub open spec fn visual_steps(old: App, saved: App, changed: App, op: spec_fn(App, App) -> bool) -> bool {
        if old.visual_ids().len() > 0 {
            App::undo_saved(old, saved) && op(saved, changed)
        } else {
            changed == old
        }
    }

    /// The status the visual `Space` (`to` Doing) or `Enter` (`to` Done)
    /// gives the selection: back to Todo when all of it already has `to`.
    pub open spec fn visual_target(old: App, to: Status) -> Status {
        let ids = old.visual_ids();
        if forall|i: int| 0 <= i < ids.len() ==> #[trigger] old.has_status(ids[i], to) {
            Status::Todo
        } else {
            to
        }
    }

    /// What a command of the bulk, visual, move, slot and snapshot modes
    /// makes of `old`.
    #[verifier::opaque]
    pub open spec fn mode_command_state(old: App, new: App, c: Command) -> bool {
        let ids = old.visual_ids();
        match c {
            Command::BulkCommit => App::commit_bulk_insert_done(old, new),
            Command::VisualExit => App::exit_visual_done(old, new),
            Command::VisualUp => App::visual_done(old, new, |a: App, b: App| App::visual_shift_up_done(a, b, ids), false),
            Command::VisualDown => App::visual_done(
                old,
                new,
                |a: App, b: App| App::visual_shift_down_done(a, b, ids),
                false,
            ),
            Command::VisualDelete => App::visual_done(old, new, |a: App, b: App| App::visual_delete_done(a, b, ids), true),
            Command::VisualDoing => App::visual_done(
                old,
                new,
                |a: App, b: App| App::visual_apply_status_done(a, b, ids, App::visual_target(old, Status::Doing)),
                true,
            ),
            Command::VisualDone => App::visual_done(
                old,
                new,
                |a: App, b: App| App::visual_apply_status_done(a, b, ids, App::visual_target(old, Status::Done)),
                true,
            ),
            Command::MoveTo(slot) => if slot < 10 {
                App::move_to_slot_done(old, new, slot)
            } else {
                new == old
            },
            Command::SlotNext => if old.project_edit matches Some(pe) ==> pe.slot < 10 {
                App::project_edit_navigate_done(old, new, 1)
            } else {
                new == old
            },
            Command::SlotPrev => if old.project_edit matches Some(pe) ==> pe.slot < 10 {
                App::project_edit_navigate_done(old, new, -1i32)
            } else {
                new == old
            },
            Command::SlotCommit => if old.project_edit matches Some(pe) ==> pe.slot < 10 {
                App::commit_project_edit_done(old, new)
            } else {
                new == old
            },
            Command::SnapClose => App::close_snap_browser_done(old, new),
            Command::SnapUp | Command::SnapDown | Command::ViewerClose | Command::ViewerUp | Command::ViewerDown => match old.snap_popup {
                None => new == old,
                Some(p) => {
                    &&& new.snap_popup matches Some(q) && q.entries == p.entries && match c {
                        Command::SnapUp => q.viewer == p.viewer && q.cursor == (if p.cursor > 0 {
                            p.cursor - 1
                        } else {
                            0
                        }),
                        Command::SnapDown => q.viewer == p.viewer && q.cursor == (if p.cursor + 1 < p.entries@.len() {
                            p.cursor + 1
                        } else {
                            p.cursor as int
                        }),
                        Command::ViewerClose => q.viewer is None && q.cursor == p.cursor,
                        Command::ViewerUp => q.cursor == p.cursor && match p.viewer {
                            Some(v) => q.viewer matches Some(w) && w.tasks == v.tasks && w.label == v.label
                                && w.scroll_offset == (if v.scroll_offset > 0 {
                                v.scroll_offset - 1
                            } else {
                                0
                            }),
                            None => q.viewer is None,
                        },
                        _ => q.cursor == p.cursor && match p.viewer {
                            Some(v) => if v.scroll_offset < usize::MAX {
                                q.viewer matches Some(w) && w.tasks == v.tasks && w.label == v.label
                                    && w.scroll_offset == v.scroll_offset + 1
                            } else {
                                q.viewer == p.viewer
                            },
                            None => q.viewer is None,
                        },
                    }
                    &&& new == (App { snap_popup: new.snap_popup, ..old })
                },
            },
            Command::BulkNumber => match old.bulk_insert {
                None => new == old,
                Some(b) => {
                    &&& new.bulk_insert matches Some(n) && n.num_input == b.num_input && n.prefix_input
                        == b.prefix_input && match count_value(crate::text::trimmed(b.num_input@)) {
                        Some(v) => if v > 0 {
                            n.num == v && n.step == BulkInsertStep::Prefix
                        } else {
                            n.num == b.num && n.step == b.step
                        },
                        None => n.num == b.num && n.step == b.step,
                    }
                    &&& new == (App { bulk_insert: new.bulk_insert, ..old })
                },
            },
            Command::BulkType(ch) => match old.bulk_insert {
                None => new == old,
                Some(b) => {
                    &&& new.bulk_insert matches Some(n) && n.num == b.num && n.step == b.step && match b.step {
                        BulkInsertStep::Num => n.prefix_input == b.prefix_input && n.num_input@ == (if '0' <= ch
                            <= '9' {
                            b.num_input@.push(ch)
                        } else {
                            b.num_input@
                        }),
                        BulkInsertStep::Prefix => n.num_input == b.num_input && n.prefix_input@
                            == b.prefix_input@.push(ch),
                    }
                    &&& new == (App { bulk_insert: new.bulk_insert, ..old })
                },
            },
            Command::BulkErase => match old.bulk_insert {
                None => new == old,
                Some(b) => {
                    &&& new.bulk_insert matches Some(n) && n.num == b.num && n.step == b.step && match b.step {
                        BulkInsertStep::Num => n.prefix_input == b.prefix_input && n.num_input@ == (
                        if b.num_input@.len() > 0 {
                            b.num_input@.drop_last()
                        } else {
                            b.num_input@
                        }),
                        BulkInsertStep::Prefix => n.num_input == b.num_input && n.prefix_input@ == (
                        if b.prefix_input@.len() > 0 {
                            b.prefix_input@.drop_last()
                        } else {
                            b.prefix_input@
                        }),
                    }
                    &&& new == (App { bulk_insert: new.bulk_insert, ..old })
                },
            },
            Command::SlotType(ch) => match old.project_edit {
                None => new == old,
                Some(pe) => new.project_edit matches Some(n) && n.slot == pe.slot && n.input@ == pe.input@.push(ch)
                    && new == (App { project_edit: new.project_edit, ..old }),
            },
            Command::SlotErase => match old.project_edit {
                None => new == old,
                Some(pe) => new.project_edit matches Some(n) && n.slot == pe.slot && n.input@ == (
                if pe.input@.len() > 0 {
                    pe.input@.drop_last()
                } else {
                    pe.input@
                }) && new == (App { project_edit: new.project_edit, ..old }),
            },
            _ => true,
        }
    }

    /// The group predicates say nothing of a command outside their group.
    proof fn lemma_other_groups(old: App, c: Command)
        ensures
            App::command_group(c) != 0 ==> forall|new: App| #[trigger] App::view_command_state(old, new, c),
            App::command_group(c) != 1 ==> forall|new: App| #[trigger] App::tree_command_state(old, new, c),
            App::command_group(c) != 2 ==> forall|new: App| #[trigger] App::entry_command_state(old, new, c),
            App::command_group(c) != 3 ==> forall|new: App| #[trigger] App::mode_command_state(old, new, c),
    {
        reveal(App::view_command_state);
        reveal(App::tree_command_state);
        reveal(App::entry_command_state);
        reveal(App::mode_command_state);
    }

    /// `new` and `a` are what carrying out `c` in `old` gives, as far as stated.
    pub open spec fn command_done(old: App, new: App, c: Command, a: AppAction) -> bool {
        &&& !(c is FlagTask || c is DeletePress) ==> a == command_action(c)
        &&& c is FlagTask ==> a == (if old.flag_applies() {
            AppAction::Save
        } else {
            AppAction::Nothing
        })
        &&& c is DeletePress ==> (a is Save || a is Nothing)
        &&& keeps_state(c) ==> new == old
        &&& c is Undo ==> App::undone(old, new)
        &&& c is Redo ==> App::redone(old, new)
        &&& c is ToggleFold ==> App::fold_toggled(old, new)
        &&& c is ZPress ==> new.last_z_press is Some && new == (App { last_z_press: new.last_z_press, ..old })
        &&& App::search_command_done(old, new, c)
        &&& App::view_command_state(old, new, c)
        &&& App::tree_command_state(old, new, c)
        &&& App::entry_command_state(old, new, c)
        &&& App::mode_command_state(old, new, c)
        &&& c is OpenHelp ==> new == (App { mode: Mode::Help, ..old })
        &&& c is CloseHelp ==> new == (App { mode: Mode::Normal, ..old })
        &&& c is InsertCancel ==> new == (App { insert: None, mode: Mode::Normal, ..old })
        &&& c is EditCancel ==> new == (App { edit: None, mode: Mode::Normal, ..old })
        &&& c is MoveCancel ==> new == (App { move_state: None, mode: Mode::Normal, ..old })
        &&& c is BulkCancel ==> new == (App { bulk_insert: None, mode: Mode::Normal, ..old })
        &&& c is AskDiscard ==> new.discard_confirm && (new.status_message matches Some(m) && m@
            == "Discard changes? (y/n)"@) && new == (App {
            discard_confirm: true,
            status_message: new.status_message,
            ..old
        })
        &&& c is DiscardNo ==> new == (App { discard_confirm: false, status_message: None, ..old })
        &&& c is DiscardYes ==> new == (App {
            discard_confirm: false,
            insert: None,
            edit: if old.insert is Some { old.edit } else { None },
            mode: Mode::Normal,
            ..old
        })
        &&& (c matches Command::InsertType(ch) ==> (old.insert matches Some(st) ==> new.insert matches Some(n)
            && n.title@ == st.title@.push(ch) && n.project == st.project && n.parent_id == st.parent_id
            && n.status == st.status && n.position == st.position && new == (App {
            insert: new.insert,
            ..old
        })))
        &&& (c is InsertErase ==> (old.insert matches Some(st) ==> new.insert matches Some(n) && n.title@ == (
        if st.title@.len() > 0 {
            st.title@.drop_last()
        } else {
            st.title@
        }) && n.project == st.project && n.parent_id == st.parent_id && n.status == st.status && n.position
            == st.position && new == (App { insert: new.insert, ..old })))
        &&& (c matches Command::EditType(ch) ==> (old.edit matches Some(e) ==> (e.cursor_pos < usize::MAX ==> (
        new.edit matches Some(n) && n.task_id == e.task_id && n.title@ == e.title@.subrange(0, e.cursor_pos as int)
            + seq![ch] + e.title@.subrange(e.cursor_pos as int, e.title@.len() as int) && n.cursor_pos
            == e.cursor_pos + 1 && new == (App { edit: new.edit, ..old })))))
        &&& (c is EditErase ==> (old.edit matches Some(e) ==> new.edit matches Some(n) && n.task_id == e.task_id
            && if e.cursor_pos > 0 {
            n.title@ == e.title@.subrange(0, e.cursor_pos - 1) + e.title@.subrange(
                e.cursor_pos as int,
                e.title@.len() as int,
            ) && n.cursor_pos == e.cursor_pos - 1
        } else {
            n.title == e.title && n.cursor_pos == e.cursor_pos
        } && new == (App { edit: new.edit, ..old })))
        &&& (c is EditLeft ==> (old.edit matches Some(e) ==> new.edit matches Some(n) && n.task_id == e.task_id
            && n.title == e.title && n.cursor_pos == (if e.cursor_pos > 0 {
            e.cursor_pos - 1
        } else {
            e.cursor_pos as int
        }) && new == (App { edit: new.edit, ..old })))
        &&& (c is EditRight ==> (old.edit matches Some(e) ==> new.edit matches Some(n) && n.task_id == e.task_id
            && n.title == e.title && n.cursor_pos == (if e.cursor_pos < e.title@.len() {
            e.cursor_pos + 1
        } else {
            e.cursor_pos as int
        }) && new == (App { edit: new.edit, ..old })))
        &&& (c is Indent ==> ({
            let l = old.nav_list(old.focused_col);
            let cur = old.cursor@[column_index(old.focused_col)];
            if cur == 0 || l.len() == 0 || cur < l.len() {
                exists|saved: App| App::adopted(old, saved, new)
            } else {
                new == old
            }
        }))
    }

    /// The command group of `c`: 0 for views and filters, 1 for tree
    /// edits, 2 for typing a title, 3 for the other modes, 4 for the search.
    pub open spec fn command_group(c: Command) -> int {
        match c {
            Command::Nothing | Command::Quit | Command::Snapshot | Command::ConfirmArchive | Command::SnapOpen | Command::OpenHelp | Command::CloseHelp | Command::Down | Command::Up | Command::ColLeft | Command::ColRight | Command::MoveLeft | Command::MoveRight | Command::DoingDown | Command::DoingUp | Command::CycleSort | Command::ToTreeSelected | Command::ToTreeLast | Command::ToBoard | Command::LeaveTree | Command::PrevProject | Command::NextProject | Command::SlotKey(_) | Command::InboxKey | Command::EnableAll | Command::DisableAll | Command::ProjectEdit | Command::FlagPill(_) | Command::FlagTask | Command::FlagClear | Command::ConfirmFlagClear | Command::CancelFlagClear | Command::BeginArchive | Command::CancelArchive => 0,
            Command::InsertAfter | Command::InsertBefore | Command::EditStart | Command::EditEnd | Command::DeletePress | Command::Undo | Command::Redo | Command::Indent | Command::Outdent | Command::SwapDown | Command::SwapUp | Command::MoveProject | Command::BulkInsert | Command::Fold | Command::ToggleFold | Command::GPress | Command::ZPress | Command::Last | Command::Visual | Command::ToggleDoing => 1,
            Command::InsertCommit | Command::InsertCancel | Command::AskDiscard | Command::DiscardYes | Command::DiscardNo | Command::InsertIndent | Command::InsertUnindent | Command::InsertType(_) | Command::InsertErase | Command::EditCommit | Command::EditCancel | Command::EditLeft | Command::EditRight | Command::EditType(_) | Command::EditErase => 2,
            Command::BulkCancel | Command::BulkNumber | Command::BulkCommit | Command::BulkType(_) | Command::BulkErase | Command::VisualExit | Command::VisualUp | Command::VisualDown | Command::VisualDelete | Command::VisualDoing | Command::VisualDone | Command::MoveTo(_) | Command::MoveCancel | Command::SlotNext | Command::SlotPrev | Command::SlotCommit | Command::SlotType(_) | Command::SlotErase | Command::SnapUp | Command::SnapDown | Command::SnapClose | Command::ViewerUp | Command::ViewerDown | Command::ViewerClose => 3,
            Command::SearchBegin | Command::SearchClear | Command::SearchNext | Command::SearchPrev | Command::SearchCommit | Command::SearchCancel | Command::SearchType(_) | Command::SearchErase => 4,
        }
    }

    /// Carries out command `c`.
    fn run_command(&mut self, c: Command) -> (a: AppAction)
        requires
            old(self).edit_cursor_ok(),
        ensures
            App::command_done(*old(self), *final(self), c, a),
            final(self).edit_cursor_ok(),
    {
        let g: u8 = match c {
            Command::Nothing | Command::Quit | Command::Snapshot | Command::ConfirmArchive | Command::SnapOpen | Command::OpenHelp | Command::CloseHelp | Command::Down | Command::Up | Command::ColLeft | Command::ColRight | Command::MoveLeft | Command::MoveRight | Command::DoingDown | Command::DoingUp | Command::CycleSort | Command::ToTreeSelected | Command::ToTreeLast | Command::ToBoard | Command::LeaveTree | Command::PrevProject | Command::NextProject | Command::SlotKey(_) | Command::InboxKey | Command::EnableAll | Command::DisableAll | Command::ProjectEdit | Command::FlagPill(_) | Command::FlagTask | Command::FlagClear | Command::ConfirmFlagClear | Command::CancelFlagClear | Command::BeginArchive | Command::CancelArchive => 0,
            Command::InsertAfter | Command::InsertBefore | Command::EditStart | Command::EditEnd | Command::DeletePress | Command::Undo | Command::Redo | Command::Indent | Command::Outdent | Command::SwapDown | Command::SwapUp | Command::MoveProject | Command::BulkInsert | Command::Fold | Command::ToggleFold | Command::GPress | Command::ZPress | Command::Last | Command::Visual | Command::ToggleDoing => 1,
            Command::InsertCommit | Command::InsertCancel | Command::AskDiscard | Command::DiscardYes | Command::DiscardNo | Command::InsertIndent | Command::InsertUnindent | Command::InsertType(_) | Command::InsertErase | Command::EditCommit | Command::EditCancel | Command::EditLeft | Command::EditRight | Command::EditType(_) | Command::EditErase => 2,
            Command::BulkCancel | Command::BulkNumber | Command::BulkCommit | Command::BulkType(_) | Command::BulkErase | Command::VisualExit | Command::VisualUp | Command::VisualDown | Command::VisualDelete | Command::VisualDoing | Command::VisualDone | Command::MoveTo(_) | Command::MoveCancel | Command::SlotNext | Command::SlotPrev | Command::SlotCommit | Command::SlotType(_) | Command::SlotErase | Command::SnapUp | Command::SnapDown | Command::SnapClose | Command::ViewerUp | Command::ViewerDown | Command::ViewerClose => 3,
            Command::SearchBegin | Command::SearchClear | Command::SearchNext | Command::SearchPrev | Command::SearchCommit | Command::SearchCancel | Command::SearchType(_) | Command::SearchErase => 4,
        };
        if g == 0 {
            self.run_view_command(c)
        } else if g == 1 {
            self.run_tree_command(c)
        } else if g == 2 {
            self.run_entry_command(c)
        } else if g == 3 {
            self.run_other_mode_command(c)
        } else {
            self.run_search_command(c)
        }
    }

    /// Carries out a command of the search.
    fn run_search_command(&mut self, c: Command) -> (a: AppAction)
        requires
            old(self).edit_cursor_ok(),
            App::command_group(c) == 4,
        ensures
            App::command_done(*old(self), *final(self), c, a),
            final(self).edit_cursor_ok(),
    {
        proof {
            App::lemma_other_groups(*old(self), c);
        }
        match c {
            Command::SearchBegin => self.begin_search(),
            Command::SearchClear => {
                if self.search.is_some() {
                    self.cancel_search();
                }
            },
            Command::SearchNext => self.search_next(),
            Command::SearchPrev => self.search_prev(),
            Command::SearchCommit => self.commit_search(),
            Command::SearchCancel => self.cancel_search(),
            Command::SearchType(ch) => self.search_push(ch),
            Command::SearchErase => self.search_pop(),
            _ => {},
        }
        proof {
            reveal(App::search_command_done);
        }
        AppAction::Nothing
    }

    /// Carries out a command of the views, filters and flags.
    #[verifier::rlimit(100)]
    #[verifier::spinoff_prover]
    fn run_view_command(&mut self, c: Command) -> (a: AppAction)
        requires
            old(self).edit_cursor_ok(),
            App::command_group(c) == 0,
        ensures
            App::command_done(*old(self), *final(self), c, a),
            final(self).edit_cursor_ok(),
    {
        proof {
            App::lemma_not_search(*old(self), c);
            App::lemma_other_groups(*old(self), c);
            reveal(App::view_command_state);
        }
        match c {
            Command::Nothing => AppAction::Nothing,
            Command::Quit => AppAction::Quit,
            Command::Snapshot => AppAction::Snapshot,
            Command::ConfirmArchive => AppAction::Archive,
            Command::SnapOpen => AppAction::LoadSnapshot,
            Command::OpenHelp => {
                self.mode = Mode::Help;
                AppAction::Nothing
            },
            Command::CloseHelp => {
                self.mode = Mode::Normal;
                AppAction::Nothing
            },
            Command::Down => {
                match self.view_mode {
                    ViewMode::Tree => self.navigate_tree(1),
                    ViewMode::Board => self.move_cursor_down(),
                }
                AppAction::Nothing
            },
            Command::Up => {
                match self.view_mode {
                    ViewMode::Tree => self.navigate_tree(-1),
                    ViewMode::Board => self.move_cursor_up(),
                }
                AppAction::Nothing
            },
            Command::ColLeft => {
                self.focus_prev_col();
                AppAction::Nothing
            },
            Command::ColRight => {
                self.focus_next_col();
                AppAction::Nothing
            },
            Command::MoveLeft => {
                self.move_selected_left();
                AppAction::Save
            },
            Command::MoveRight => {
                self.move_selected_right();
                AppAction::Save
            },
            Command::DoingDown => {
                self.kanban_doing_swap(1);
                AppAction::Save
            },
            Command::DoingUp => {
                if self.doing_cursor_in_list() {
                    self.kanban_doing_swap(-1);
                }
                AppAction::Save
            },
            Command::CycleSort => {
                self.cycle_sort();
                AppAction::Nothing
            },
            Command::ToTreeSelected => {
                self.enter_planning_for_selected();
                AppAction::Nothing
            },
            Command::ToTreeLast => {
                self.enter_planning_for_last_project();
                AppAction::Nothing
            },
            Command::ToBoard => {
                self.enter_kanban_for_selected();
                AppAction::Nothing
            },
            Command::LeaveTree => {
                self.exit_planning();
                AppAction::Nothing
            },
            Command::PrevProject => {
                self.cycle_project(-1);
                AppAction::Nothing
            },
            Command::NextProject => {
                self.cycle_project(1);
                AppAction::Nothing
            },
            Command::SlotKey(slot) => {
                if slot < 10 {
                    match self.view_mode {
                        ViewMode::Board => self.enter_planning_for_slot_key(slot),
                        ViewMode::Tree => self.select_project_slot(slot),
                    }
                }
                AppAction::Nothing
            },
            Command::InboxKey => {
                match self.view_mode {
                    ViewMode::Board => self.enter_planning_for_inbox_tree(),
                    ViewMode::Tree => self.select_inbox(),
                }
                AppAction::Nothing
            },
            Command::EnableAll => {
                self.enable_all();
                AppAction::Nothing
            },
            Command::DisableAll => {
                self.disable_all();
                AppAction::Nothing
            },
            Command::ProjectEdit => {
                self.begin_project_edit();
                AppAction::Nothing
            },
            Command::FlagPill(i) => {
                if i < 3 {
                    self.toggle_flag_pill(i);
                }
                AppAction::Nothing
            },
            Command::FlagTask => {
                let ok = match self.active_highlight {
                    Some(h) => h < 8,
                    None => true,
                };
                if ok {
                    let changed = self.flag_selected_task();
                    proof {
                        assert(App::flag_selected_task_done(*old(self), *self, changed));
                    }
                    if changed {
                        AppAction::Save
                    } else {
                        AppAction::Nothing
                    }
                } else {
                    AppAction::Nothing
                }
            },
            Command::FlagClear => {
                self.begin_flag_clear();
                AppAction::Nothing
            },
            Command::ConfirmFlagClear => {
                self.confirm_flag_clear();
                AppAction::Save
            },
            Command::CancelFlagClear => {
                self.cancel_flag_clear();
                AppAction::Nothing
            },
            Command::BeginArchive => {
                self.begin_archive_done();
                AppAction::Nothing
            },
            Command::CancelArchive => {
                self.cancel_archive_done();
                AppAction::Nothing
            },
            _ => AppAction::Nothing,
        }
    }

    /// Carries out a command that edits the tree.
    fn run_tree_command(&mut self, c: Command) -> (a: AppAction)
        requires
            old(self).edit_cursor_ok(),
            App::command_group(c) == 1,
        ensures
            App::command_done(*old(self), *final(self), c, a),
            final(self).edit_cursor_ok(),
    {
        proof {
            App::lemma_not_search(*old(self), c);
            App::lemma_other_groups(*old(self), c);
            reveal(App::tree_command_state);
        }
        match c {
            Command::InsertAfter => {
                if self.selection_is_found() {
                    self.begin_insert_after();
                }
                AppAction::Nothing
            },
            Command::InsertBefore => {
                if self.selection_is_found() {
                    self.begin_insert_before();
                }
                AppAction::Nothing
            },
            Command::EditStart => {
                self.begin_edit(false);
                AppAction::Nothing
            },
            Command::EditEnd => {
                self.begin_edit(true);
                AppAction::Nothing
            },
            Command::DeletePress => {
                let fired = self.try_delete_dd();
                proof {
                    assert(App::try_delete_dd_done(*old(self), *self, fired));
                }
                if fired {
                    AppAction::Save
                } else {
                    AppAction::Nothing
                }
            },
            Command::Undo => {
                self.undo();
                AppAction::Save
            },
            Command::Redo => {
                self.redo();
                AppAction::Save
            },
            Command::Indent => {
                if self.cursor_in_list() {
                    self.make_child();
                }
                AppAction::Save
            },
            Command::Outdent => {
                self.make_root();
                AppAction::Save
            },
            Command::SwapDown => {
                if self.swap_down_is_safe() {
                    self.tree_swap_down();
                }
                AppAction::Save
            },
            Command::SwapUp => {
                self.tree_swap_up();
                AppAction::Save
            },
            Command::MoveProject => {
                self.begin_move_project();
                AppAction::Nothing
            },
            Command::BulkInsert => {
                self.begin_bulk_insert();
                AppAction::Nothing
            },
            Command::Fold => {
                self.fold_selected();
                AppAction::Nothing
            },
            Command::ToggleFold => {
                self.toggle_fold_selected();
                AppAction::Nothing
            },
            Command::GPress => {
                let double = self.consume_gg();
                let ghost mid = *self;
                if double {
                    self.tree_goto_first();
                }
                proof {
                    assert(App::consume_gg_done(*old(self), mid, double));
                }
                AppAction::Nothing
            },
            Command::ZPress => {
                self.remember_z();
                AppAction::Nothing
            },
            Command::Last => {
                self.tree_goto_last();
                AppAction::Nothing
            },
            Command::Visual => {
                self.enter_visual();
                AppAction::Nothing
            },
            Command::ToggleDoing => {
                self.tree_toggle_doing();
                AppAction::Save
            },
            _ => AppAction::Nothing,
        }
    }

    /// Carries out a command of a title being typed.
    fn run_entry_command(&mut self, c: Command) -> (a: AppAction)
        requires
            old(self).edit_cursor_ok(),
            App::command_group(c) == 2,
        ensures
            App::command_done(*old(self), *final(self), c, a),
            final(self).edit_cursor_ok(),
    {
        match c {
            Command::EditCommit | Command::EditCancel | Command::EditLeft | Command::EditRight
            | Command::EditType(_) | Command::EditErase => self.run_edit_command(c),
            _ => self.run_insert_command(c),
        }
    }

    /// Whether `c` is a command of the title edit.
    pub open spec fn title_edit_command(c: Command) -> bool {
        c is EditCommit || c is EditCancel || c is EditLeft || c is EditRight || c is EditType || c is EditErase
    }

    /// Carries out a command of the title being typed for a new task.
    #[verifier::rlimit(100)]
    #[verifier::spinoff_prover]
    fn run_insert_command(&mut self, c: Command) -> (a: AppAction)
        requires
            old(self).edit_cursor_ok(),
            App::command_group(c) == 2,
            !App::title_edit_command(c),
        ensures
            App::command_done(*old(self), *final(self), c, a),
            final(self).edit_cursor_ok(),
    {
        proof {
            App::lemma_not_search(*old(self), c);
            App::lemma_other_groups(*old(self), c);
            reveal(App::entry_command_state);
        }
        match c {
            Command::InsertCommit => {
                self.commit_insert();
                AppAction::Save
            },
            Command::InsertCancel => {
                self.insert = None;
                self.mode = Mode::Normal;
                AppAction::Nothing
            },
            Command::AskDiscard => {
                self.discard_confirm = true;
                self.status_message = Some("Discard changes? (y/n)".to_owned());
                AppAction::Nothing
            },
            Command::DiscardYes => {
                self.discard_confirm = false;
                if self.insert.is_some() {
                    self.insert = None;
                } else {
                    self.edit = None;
                }
                self.mode = Mode::Normal;
                AppAction::Nothing
            },
            Command::DiscardNo => {
                self.discard_confirm = false;
                self.status_message = None;
                AppAction::Nothing
            },
            Command::InsertIndent => {
                self.indent_insert();
                AppAction::Nothing
            },
            Command::InsertUnindent => {
                self.unindent_insert();
                AppAction::Nothing
            },
            Command::InsertType(ch) => {
                if let Some(mut st) = self.insert.take() {
                    crate::review::push_char(&mut st.title, ch);
                    self.insert = Some(st);
                }
                AppAction::Nothing
            },
            Command::InsertErase => {
                if let Some(mut st) = self.insert.take() {
                    crate::review::pop_char(&mut st.title);
                    self.insert = Some(st);
                }
                AppAction::Nothing
            },
            _ => AppAction::Nothing,
        }
    }

    /// Carries out a command of the title being edited.
    #[verifier::rlimit(100)]
    #[verifier::spinoff_prover]
    fn run_edit_command(&mut self, c: Command) -> (a: AppAction)
        requires
            old(self).edit_cursor_ok(),
            App::title_edit_command(c),
        ensures
            App::command_done(*old(self), *final(self), c, a),
            final(self).edit_cursor_ok(),
    {
        proof {
            App::lemma_not_search(*old(self), c);
            App::lemma_other_groups(*old(self), c);
            reveal(App::entry_command_state);
        }
        match c {
            Command::EditCommit => {
                self.commit_edit();
                AppAction::Save
            },
            Command::EditCancel => {
                self.edit = None;
                self.mode = Mode::Normal;
                AppAction::Nothing
            },
            Command::EditLeft => {
                if let Some(mut e) = self.edit.take() {
                    if e.cursor_pos > 0 {
                        e.cursor_pos = e.cursor_pos - 1;
                    }
                    self.edit = Some(e);
                }
                AppAction::Nothing
            },
            Command::EditRight => {
                if let Some(mut e) = self.edit.take() {
                    if e.cursor_pos < e.title.as_str().unicode_len() {
                        e.cursor_pos = e.cursor_pos + 1;
                    }
                    self.edit = Some(e);
                }
                AppAction::Nothing
            },
            Command::EditType(ch) => {
                if let Some(mut e) = self.edit.take() {
                    if e.cursor_pos < usize::MAX {
                        e.title = char_inserted(&e.title, e.cursor_pos, ch);
                        e.cursor_pos = e.cursor_pos + 1;
                    }
                    self.edit = Some(e);
                }
                AppAction::Nothing
            },
            Command::EditErase => {
                if let Some(mut e) = self.edit.take() {
                    if e.cursor_pos > 0 {
                        e.title = char_removed(&e.title, e.cursor_pos - 1);
                        e.cursor_pos = e.cursor_pos - 1;
                    }
                    self.edit = Some(e);
                }
                AppAction::Nothing
            },
            _ => AppAction::Nothing,
        }
    }

    /// Carries out a command of the other modes.
    fn run_other_mode_command(&mut self, c: Command) -> (a: AppAction)
        requires
            old(self).edit_cursor_ok(),
            App::command_group(c) == 3,
        ensures
            App::command_done(*old(self), *final(self), c, a),
            final(self).edit_cursor_ok(),
    {
        match c {
            Command::VisualExit | Command::VisualUp | Command::VisualDown | Command::VisualDelete | Command::VisualDoing
            | Command::VisualDone => self.run_visual_command(c),
            _ => self.run_mode_command(c),
        }
    }

    /// Whether `c` is a command of the visual mode.
    pub open spec fn visual_command(c: Command) -> bool {
        c is VisualExit || c is VisualUp || c is VisualDown || c is VisualDelete || c is VisualDoing || c is VisualDone
    }

    /// Carries out a command of the bulk insert, move, slot and snapshot modes.
    #[verifier::rlimit(100)]
    #[verifier::spinoff_prover]
    fn run_mode_command(&mut self, c: Command) -> (a: AppAction)
        requires
            old(self).edit_cursor_ok(),
            App::command_group(c) == 3,
            !App::visual_command(c),
        ensures
            App::command_done(*old(self), *final(self), c, a),
            final(self).edit_cursor_ok(),
    {
        proof {
            App::lemma_not_search(*old(self), c);
            App::lemma_other_groups(*old(self), c);
            reveal(App::mode_command_state);
        }
        match c {
            Command::BulkCancel => {
                self.bulk_insert = None;
                self.mode = Mode::Normal;
                AppAction::Nothing
            },
            Command::BulkNumber => {
                if let Some(mut b) = self.bulk_insert.take() {
                    let t = crate::text::trim_text(b.num_input.as_str());
                    match parse_count(t.as_str()) {
                        Some(n) => {
                            if n > 0 {
                                b.num = n;
                                b.step = BulkInsertStep::Prefix;
                            }
                        },
                        None => {},
                    }
                    self.bulk_insert = Some(b);
                }
                AppAction::Nothing
            },
            Command::BulkCommit => {
                self.commit_bulk_insert();
                AppAction::Save
            },
            Command::BulkType(ch) => {
                if let Some(mut b) = self.bulk_insert.take() {
                    match b.step {
                        BulkInsertStep::Num => {
                            if '0' <= ch && ch <= '9' {
                                crate::review::push_char(&mut b.num_input, ch);
                            }
                        },
                        BulkInsertStep::Prefix => crate::review::push_char(&mut b.prefix_input, ch),
                    }
                    self.bulk_insert = Some(b);
                }
                AppAction::Nothing
            },
            Command::BulkErase => {
                if let Some(mut b) = self.bulk_insert.take() {
                    match b.step {
                        BulkInsertStep::Num => crate::review::pop_char(&mut b.num_input),
                        BulkInsertStep::Prefix => crate::review::pop_char(&mut b.prefix_input),
                    }
                    self.bulk_insert = Some(b);
                }
                AppAction::Nothing
            },
            Command::MoveTo(slot) => {
                if slot < 10 {
                    self.move_to_slot(slot);
                }
                AppAction::Save
            },
            Command::MoveCancel => {
                self.move_state = None;
                self.mode = Mode::Normal;
                AppAction::Nothing
            },
            Command::SlotNext => {
                if self.project_slot_ok() {
                    self.project_edit_navigate(1);
                }
                AppAction::Nothing
            },
            Command::SlotPrev => {
                if self.project_slot_ok() {
                    self.project_edit_navigate(-1);
                }
                AppAction::Nothing
            },
            Command::SlotCommit => {
                if self.project_slot_ok() {
                    self.commit_project_edit();
                }
                AppAction::Save
            },
            Command::SlotType(ch) => {
                if let Some(mut pe) = self.project_edit.take() {
                    crate::review::push_char(&mut pe.input, ch);
                    self.project_edit = Some(pe);
                }
                AppAction::Nothing
            },
            Command::SlotErase => {
                if let Some(mut pe) = self.project_edit.take() {
                    crate::review::pop_char(&mut pe.input);
                    self.project_edit = Some(pe);
                }
                AppAction::Nothing
            },
            Command::SnapUp => {
                if let Some(mut p) = self.snap_popup.take() {
                    p.move_up();
                    self.snap_popup = Some(p);
                }
                AppAction::Nothing
            },
            Command::SnapDown => {
                if let Some(mut p) = self.snap_popup.take() {
                    p.move_down();
                    self.snap_popup = Some(p);
                }
                AppAction::Nothing
            },
            Command::SnapClose => {
                self.close_snap_browser();
                AppAction::Nothing
            },
            Command::ViewerUp => {
                if let Some(mut p) = self.snap_popup.take() {
                    p.viewer_scroll_up();
                    self.snap_popup = Some(p);
                }
                AppAction::Nothing
            },
            Command::ViewerDown => {
                if let Some(mut p) = self.snap_popup.take() {
                    let ok = match &p.viewer {
                        Some(v) => v.scroll_offset < usize::MAX,
                        None => true,
                    };
                    if ok {
                        p.viewer_scroll_down();
                    }
                    self.snap_popup = Some(p);
                }
                AppAction::Nothing
            },
            Command::ViewerClose => {
                if let Some(mut p) = self.snap_popup.take() {
                    p.close_viewer();
                    self.snap_popup = Some(p);
                }
                AppAction::Nothing
            },
            _ => AppAction::Nothing,
        }
    }

    /// Carries out a command of the visual mode.
    #[verifier::rlimit(100)]
    #[verifier::spinoff_prover]
    fn run_visual_command(&mut self, c: Command) -> (a: AppAction)
        requires
            old(self).edit_cursor_ok(),
            App::command_group(c) == 3,
            App::visual_command(c),
        ensures
            App::command_done(*old(self), *final(self), c, a),
            final(self).edit_cursor_ok(),
    {
        proof {
            App::lemma_not_search(*old(self), c);
            App::lemma_other_groups(*old(self), c);
            reveal(App::mode_command_state);
        }
        match c {
            Command::VisualExit => {
                self.exit_visual();
                AppAction::Nothing
            },
            Command::VisualUp => {
                let ids = self.visual_selected_ids();
                let ghost gids = ids@;
                let ghost mut saved = *self;
                if ids.len() > 0 {
                    self.push_undo();
                    proof {
                        saved = *self;
                    }
                    self.visual_shift_up(ids.as_slice());
                }
                let ghost changed = *self;
                proof {
                    assert(App::visual_steps(*old(self), saved, changed, |a: App, b: App| App::visual_shift_up_done(a, b, gids)));
                }
                AppAction::Save
            },
            Command::VisualDown => {
                let ids = self.visual_selected_ids();
                let ghost gids = ids@;
                let ghost mut saved = *self;
                if ids.len() > 0 {
                    self.push_undo();
                    proof {
                        saved = *self;
                    }
                    self.visual_shift_down(ids.as_slice());
                }
                let ghost changed = *self;
                proof {
                    assert(App::visual_steps(*old(self), saved, changed, |a: App, b: App| App::visual_shift_down_done(a, b, gids)));
                }
                AppAction::Save
            },
            Command::VisualDelete => {
                let ids = self.visual_selected_ids();
                let ghost gids = ids@;
                let ghost mut saved = *self;
                if ids.len() > 0 {
                    self.push_undo();
                    proof {
                        saved = *self;
                    }
                    self.visual_delete(ids);
                }
                let ghost changed = *self;
                self.exit_visual();
                proof {
                    assert(App::visual_steps(*old(self), saved, changed, |a: App, b: App| App::visual_delete_done(a, b, gids)));
                }
                AppAction::Save
            },
            Command::VisualDoing => {
                let ids = self.visual_selected_ids();
                let ghost gids = ids@;
                let ghost target = App::visual_target(*old(self), Status::Doing);
                let ghost mut saved = *self;
                if ids.len() > 0 {
                    let all = self.all_have_status(&ids, Status::Doing);
                    let s = if all { Status::Todo } else { Status::Doing };
                    self.push_undo();
                    proof {
                        saved = *self;
                    }
                    self.visual_apply_status(ids.as_slice(), s);
                }
                let ghost changed = *self;
                self.exit_visual();
                proof {
                    assert(App::visual_steps(
                        *old(self),
                        saved,
                        changed,
                        |a: App, b: App| App::visual_apply_status_done(a, b, gids, target),
                    ));
                }
                AppAction::Save
            },
            Command::VisualDone => {
                let ids = self.visual_selected_ids();
                let ghost gids = ids@;
                let ghost target = App::visual_target(*old(self), Status::Done);
                let ghost mut saved = *self;
                if ids.len() > 0 {
                    let all = self.all_have_status(&ids, Status::Done);
                    let s = if all { Status::Todo } else { Status::Done };
                    self.push_undo();
                    proof {
                        saved = *self;
                    }
                    self.visual_apply_status(ids.as_slice(), s);
                }
                let ghost changed = *self;
                self.exit_visual();
                proof {
                    assert(App::visual_steps(
                        *old(self),
                        saved,
                        changed,
                        |a: App, b: App| App::visual_apply_status_done(a, b, gids, target),
                    ));
                }
                AppAction::Save
            },
            _ => AppAction::Nothing,
        }
    }

    /// Whether the slot being renamed is one of the ten.
    fn project_slot_ok(&self) -> (r: bool)
        ensures
            r == (self.project_edit matches Some(pe) ==> pe.slot < 10),
    {
        match &self.project_edit {
            Some(pe) => pe.slot < 10,
            None => true,
        }
    }

    /// Whether the cursor's task, if any, can be found among the tasks.
    pub fn selection_is_found(&self) -> (r: bool)
        ensures
            r == self.selection_found(),
    {
        match self.selected_task_id(self.focused_col) {
            Some(id) => self.task_ref(id).is_some(),
            None => true,
        }
    }

    /// Whether the cursor of the focused column is on its list (or at the top,
    /// or the list is empty), as `make_child` needs.
    pub fn cursor_in_list(&self) -> (r: bool)
        ensures
            r == ({
                let l = self.nav_list(self.focused_col);
                let cur = self.cursor@[column_index(self.focused_col)];
                cur == 0 || l.len() == 0 || cur < l.len()
            }),
    {
        let col = self.focused_col;
        let l = self.nav_tasks_for(col);
        let cur = self.cursor_for(col);
        proof {
            assert(deref_all(l@).len() == l@.len());
        }
        cur == 0 || l.len() == 0 || cur < l.len()
    }

    /// Whether the Doing cursor is at the top or on the Doing column, as
    /// moving a task up the Doing column needs.
    pub fn doing_cursor_in_list(&self) -> (r: bool)
        ensures
            r == (self.cursor@[1] == 0 || self.cursor@[1] < self.board_list(Column::Doing).len()),
    {
        let l = self.board_refs(Column::Doing);
        proof {
            assert(deref_all(l@).len() == l@.len());
        }
        self.cursor[1] == 0 || self.cursor[1] < l.len()
    }

    /// Whether moving the cursor's task down the tree is well defined: it is
    /// not when the row after its subtree is a sibling while its parent lists
    /// it last.
    pub fn swap_down_is_safe(&self) -> (r: bool)
        ensures
            r == self.swap_down_safe(),
    {
        let id = match self.selected_task_id(self.focused_col) {
            Some(id) => id,
            None => {
                return true;
            },
        };
        let rows = self.dfs_visible_ids();
        let ghost ts = views(self.tasks@);
        let i = match first_pos(&rows, id) {
            Some(p) => p,
            None => {
                return true;
            },
        };
        proof {
            crate::kanban::lemma_pos_from(rows@, id, 0);
        }
        let n = rows.len();
        let mut e: usize = i + 1;
        loop
            invariant
                i < e <= rows@.len(),
                n == rows@.len(),
                ts == views(self.tasks@),
                crate::edit::subtree_end(rows@, ts, id, i + 1) == crate::edit::subtree_end(rows@, ts, id, e as int),
            ensures
                i < e <= rows@.len(),
                crate::edit::subtree_end(rows@, ts, id, i + 1) == e,
            decreases rows@.len() - e,
        {
            if e >= n {
                break;
            }
            if !crate::tree::is_descendant_of(&self.tasks, rows[e], id) {
                break;
            }
            e = e + 1;
        }
        if e >= n {
            return true;
        }
        let p1 = parent_id_of(&self.tasks, id);
        let p2 = parent_id_of(&self.tasks, rows[e]);
        let same = match (p1, p2) {
            (Some(a), Some(b)) => a == b,
            (None, None) => true,
            _ => false,
        };
        if !same {
            return true;
        }
        match p1 {
            None => true,
            Some(pid) => match find_index(&self.tasks, pid) {
                None => {
                    proof {
                        lemma_first_index(ts, pid);
                    }
                    true
                },
                Some(k) => {
                    proof {
                        lemma_first_index(ts, pid);
                        assert(lookup(ts, pid) == Some(ts[k as int]));
                        assert(ts[k as int].children == self.tasks@[k as int].children@);
                    }
                    match first_pos(&self.tasks[k].children, id) {
                        Some(q) => q < self.tasks[k].children.len() - 1,
                        None => false,
                    }
                },
            },
        }
    }

    /// Whether task `id` is found and has status `s`.
    pub open spec fn has_status(&self, id: u128, s: Status) -> bool {
        self.find(id) matches Some(t) && t.status == s
    }

    /// Whether every task of `ids` is found and has status `s`.
    pub fn all_have_status(&self, ids: &Vec<u128>, s: Status) -> (r: bool)
        ensures
            r == (forall|i: int| 0 <= i < ids@.len() ==> #[trigger] self.has_status(ids@[i], s)),
    {
        let mut k: usize = 0;
        while k < ids.len()
            invariant
                k <= ids@.len(),
                forall|i: int| 0 <= i < k ==> #[trigger] self.has_status(ids@[i], s),
            decreases ids@.len() - k,
        {
            match self.task_ref(ids[k]) {
                Some(t) => {
                    if t.status != s {
                        proof {
                            assert(!self.has_status(ids@[k as int], s));
                        }
                        return false;
                    }
                },
                None => {
                    proof {
                        assert(!self.has_status(ids@[k as int], s));
                    }
                    return false;
                },
            }
            k = k + 1;
        }
        true
    }
}

} // verus!
