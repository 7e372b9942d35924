//! Keys of the study screens: answering a topic's question, scrolling the
//! statistics, and writing a new card.

use vstd::prelude::*;

use crate::keys::{KeyCode, KeyPress};
use crate::review::{pop_char, push_char};
use crate::text::blank;

verus! {

/// Where the topic review screen is.
#[derive(Debug, Clone, Copy, PartialEq, Eq, Structural)]
pub enum TopicScreen {
    SelectingNextTopic,
    GeneratingQuestion,
    ShowingQuestion,
    InputtingAnswer,
    EvaluatingAnswer,
    ShowingFeedback,
    ShowingResults,
    Complete,
}

/// The answer being typed on the topic review screen.
pub struct TopicAnswerInput {
    pub state: TopicScreen,
    /// Whether a question is being asked.
    pub question_open: bool,
    /// The answer given to the question, once submitted.
    pub answer: Option<String>,
    /// Lines of the answer typed so far.
    pub lines: Vec<String>,
    /// The line being typed.
    pub current_line: String,
}

/// The lines joined with line breaks.
pub open spec fn joined_lines(lines: Seq<Seq<char>>) -> Seq<char>
    decreases lines.len(),
{
    if lines.len() == 0 {
        Seq::empty()
    } else if lines.len() == 1 {
        lines[0]
    } else {
        joined_lines(lines.drop_last()) + seq!['\n'] + lines.last()
    }
}

/// The text a skipped question is answered with.
pub open spec fn skipped_text() -> Seq<char> {
    "(Skipped)"@
}

fn join_lines(lines: &Vec<String>) -> (r: String)
    ensures
        r@ == joined_lines(Seq::new(lines@.len(), |i: int| lines@[i]@)),
{
    let ghost ls = Seq::new(lines@.len(), |i: int| lines@[i]@);
    let mut r = String::new();
    let mut k: usize = 0;
    while k < lines.len()
        invariant
            k <= lines@.len(),
            ls == Seq::new(lines@.len(), |i: int| lines@[i]@),
            r@ == joined_lines(ls.subrange(0, k as int)),
        decreases lines@.len() - k,
    {
        proof {
            let next = ls.subrange(0, k + 1);
            assert(next.drop_last() =~= ls.subrange(0, k as int));
            assert(next.last() == lines@[k as int]@);
        }
        if k > 0 {
            push_char(&mut r, '\n');
        } else {
            proof {
                assert(ls.subrange(0, 1)[0] == lines@[0]@);
            }
        }
        r = crate::text::concat(r.as_str(), lines[k].as_str());
        k = k + 1;
    }
    proof {
        assert(ls.subrange(0, lines@.len() as int) =~= ls);
    }
    r
}

impl TopicAnswerInput {
    /// The typed lines as texts.
    pub open spec fn typed(&self) -> Seq<Seq<char>> {
        Seq::new(self.lines@.len(), |i: int| self.lines@[i]@)
    }

    /// Handles one key; says whether the screen goes on (it does not once
    /// the review is complete). A question shown is skipped with `s` or
    /// answered after Space or Enter; while answering, characters are typed,
    /// Backspace erases (going back to the previous line from an empty one),
    /// Enter ends a line or, on an empty line after some answer, submits the
    /// answer; feedback and results move on with Space.
    pub fn handle_input(&mut self, key: KeyCode) -> (go_on: bool)
        ensures
            go_on == (old(self).state != TopicScreen::Complete),
            match old(self).state {
                TopicScreen::ShowingQuestion => if key == KeyCode::Char('s') {
                    if old(self).question_open {
                        final(self).answer matches Some(a) && a@ == skipped_text()
                            && final(self).state == TopicScreen::EvaluatingAnswer
                            && final(self).question_open && final(self).typed() == old(self).typed()
                            && final(self).current_line == old(self).current_line
                    } else {
                        *final(self) == *old(self)
                    }
                } else if key == KeyCode::Char(' ') || key == KeyCode::Enter {
                    final(self).state == TopicScreen::InputtingAnswer && final(self).lines@.len() == 0
                        && final(self).current_line@.len() == 0 && final(self).answer == old(self).answer
                        && final(self).question_open == old(self).question_open
                } else {
                    *final(self) == *old(self)
                },
                TopicScreen::InputtingAnswer => match key {
                    KeyCode::Char(c) => final(self).current_line@ == old(self).current_line@.push(c)
                        && final(self).typed() == old(self).typed() && final(self).state == old(self).state
                        && final(self).answer == old(self).answer && final(self).question_open == old(self).question_open,
                    KeyCode::Backspace => (if old(self).current_line@.len() == 0 && old(self).lines@.len() > 0 {
                        final(self).current_line@ == old(self).typed().last()
                            && final(self).typed() == old(self).typed().drop_last()
                    } else {
                        final(self).current_line@ == (if old(self).current_line@.len() > 0 {
                            old(self).current_line@.drop_last()
                        } else {
                            old(self).current_line@
                        }) && final(self).typed() == old(self).typed()
                    }) && final(self).state == old(self).state && final(self).answer == old(self).answer
                        && final(self).question_open == old(self).question_open,
                    KeyCode::Enter => if old(self).current_line@.len() == 0 && old(self).lines@.len() > 0 {
                        if old(self).question_open {
                            final(self).answer matches Some(a) && a@ == joined_lines(old(self).typed())
                                && final(self).state == TopicScreen::EvaluatingAnswer
                                && final(self).question_open && final(self).typed() == old(self).typed()
                                && final(self).current_line == old(self).current_line
                        } else {
                            *final(self) == *old(self)
                        }
                    } else {
                        final(self).typed() == old(self).typed().push(old(self).current_line@)
                            && final(self).current_line@.len() == 0 && final(self).state == old(self).state
                            && final(self).answer == old(self).answer && final(self).question_open
                            == old(self).question_open
                    },
                    _ => *final(self) == *old(self),
                },
                TopicScreen::ShowingFeedback => if key == KeyCode::Char(' ') {
                    *final(self) == (TopicAnswerInput { state: TopicScreen::SelectingNextTopic, ..*old(self) })
                } else {
                    *final(self) == *old(self)
                },
                TopicScreen::ShowingResults => if key == KeyCode::Char(' ') {
                    *final(self) == (TopicAnswerInput { state: TopicScreen::Complete, ..*old(self) })
                } else {
                    *final(self) == *old(self)
                },
                _ => *final(self) == *old(self),
            },
    {
        match self.state {
            TopicScreen::ShowingQuestion => {
                if key == KeyCode::Char('s') {
                    if self.question_open {
                        self.answer = Some("(Skipped)".to_owned());
                        self.state = TopicScreen::EvaluatingAnswer;
                        proof {
                            reveal_strlit("(Skipped)");
                        }
                    }
                } else if key == KeyCode::Char(' ') || key == KeyCode::Enter {
                    self.state = TopicScreen::InputtingAnswer;
                    self.lines = Vec::new();
                    self.current_line = String::new();
                }
                true
            },
            TopicScreen::InputtingAnswer => {
                match key {
                    KeyCode::Char(c) => {
                        push_char(&mut self.current_line, c);
                    },
                    KeyCode::Backspace => {
                        if self.current_line.as_str().unicode_len() == 0 && self.lines.len() > 0 {
                            let ghost before = self.typed();
                            match self.lines.pop() {
                                Some(l) => {
                                    self.current_line = l;
                                },
                                None => {},
                            }
                            proof {
                                assert(self.typed() =~= before.drop_last());
                            }
                        } else {
                            pop_char(&mut self.current_line);
                        }
                    },
                    KeyCode::Enter => {
                        if self.current_line.as_str().unicode_len() == 0 && self.lines.len() > 0 {
                            if self.question_open {
                                let a = join_lines(&self.lines);
                                self.answer = Some(a);
                                self.state = TopicScreen::EvaluatingAnswer;
                            }
                        } else {
                            let ghost before = self.typed();
                            let line = self.current_line.clone();
                            self.lines.push(line);
                            self.current_line = String::new();
                            proof {
                                assert(self.typed() =~= before.push(old(self).current_line@));
                            }
                        }
                    },
                    _ => {},
                }
                true
            },
            TopicScreen::ShowingFeedback => {
                if key == KeyCode::Char(' ') {
                    self.state = TopicScreen::SelectingNextTopic;
                }
                true
            },
            TopicScreen::ShowingResults => {
                if key == KeyCode::Char(' ') {
                    self.state = TopicScreen::Complete;
                }
                true
            },
            TopicScreen::Complete => false,
            _ => true,
        }
    }
}

/// Which table the statistics screen shows.
#[derive(Debug, Clone, Copy, PartialEq, Eq, Structural)]
pub enum StatsView {
    TopicPerformance,
    KeywordPerformance,
}

/// The statistics screen's table and scroll position; `topic_rows` and
/// `keyword_rows` count the rows of the two tables.
pub struct StatsScroll {
    pub view: StatsView,
    pub scroll_offset: usize,
    pub topic_rows: usize,
    pub keyword_rows: usize,
}

impl StatsScroll {
    /// The last row the shown table can scroll to.
    pub open spec fn max_scroll(&self) -> usize {
        let n = match self.view {
            StatsView::TopicPerformance => self.topic_rows,
            StatsView::KeywordPerformance => self.keyword_rows,
        };
        if n == 0 {
            0
        } else {
            (n - 1) as usize
        }
    }

    fn max_scroll_of(&self) -> (r: usize)
        ensures
            r == self.max_scroll(),
    {
        let n = match self.view {
            StatsView::TopicPerformance => self.topic_rows,
            StatsView::KeywordPerformance => self.keyword_rows,
        };
        if n == 0 {
            0
        } else {
            n - 1
        }
    }

    /// Handles one key; says whether the screen goes on (not after `q`).
    /// Tab switches tables (back to the top); Up or `j` scrolls up, Down or
    /// `l` down; Page Up and Page Down move ten rows; Home and End go to the
    /// ends.
    pub fn handle_input(&mut self, key: KeyPress) -> (go_on: bool)
        ensures
            go_on == (key.code != KeyCode::Char('q')),
            final(self).topic_rows == old(self).topic_rows,
            final(self).keyword_rows == old(self).keyword_rows,
            match key.code {
                KeyCode::Tab => final(self).view == (match old(self).view {
                    StatsView::TopicPerformance => StatsView::KeywordPerformance,
                    StatsView::KeywordPerformance => StatsView::TopicPerformance,
                }) && final(self).scroll_offset == 0,
                KeyCode::Up => final(self).view == old(self).view && final(self).scroll_offset == (if old(
                    self,
                ).scroll_offset > 0 {
                    old(self).scroll_offset - 1
                } else {
                    0
                }),
                KeyCode::Down => final(self).view == old(self).view && final(self).scroll_offset == (if old(
                    self,
                ).scroll_offset < old(self).max_scroll() {
                    old(self).scroll_offset + 1
                } else {
                    old(self).scroll_offset as int
                }),
                KeyCode::Char(c) => if c == 'j' {
                    final(self).view == old(self).view && final(self).scroll_offset == (if old(self).scroll_offset
                        > 0 {
                        old(self).scroll_offset - 1
                    } else {
                        0
                    })
                } else if c == 'l' {
                    final(self).view == old(self).view && final(self).scroll_offset == (if old(self).scroll_offset
                        < old(self).max_scroll() {
                        old(self).scroll_offset + 1
                    } else {
                        old(self).scroll_offset as int
                    })
                } else {
                    *final(self) == *old(self)
                },
                KeyCode::PageUp => final(self).view == old(self).view && final(self).scroll_offset == (if old(
                    self,
                ).scroll_offset >= 10 {
                    old(self).scroll_offset - 10
                } else {
                    0
                }),
                KeyCode::PageDown => final(self).view == old(self).view && final(self).scroll_offset == (if old(
                    self,
                ).scroll_offset + 10 < old(self).max_scroll() {
                    old(self).scroll_offset + 10
                } else {
                    old(self).max_scroll() as int
                }),
                KeyCode::Home => final(self).view == old(self).view && final(self).scroll_offset == 0,
                KeyCode::End => final(self).view == old(self).view && final(self).scroll_offset == old(
                    self,
                ).max_scroll(),
                _ => *final(self) == *old(self),
            },
    {
        match key.code {
            KeyCode::Char(c) => {
                if c == 'q' {
                    return false;
                }
                if c == 'j' {
                    if self.scroll_offset > 0 {
                        self.scroll_offset = self.scroll_offset - 1;
                    }
                } else if c == 'l' {
                    let m = self.max_scroll_of();
                    if self.scroll_offset < m {
                        self.scroll_offset = self.scroll_offset + 1;
                    }
                }
                true
            },
            KeyCode::Tab => {
                self.view = match self.view {
                    StatsView::TopicPerformance => StatsView::KeywordPerformance,
                    StatsView::KeywordPerformance => StatsView::TopicPerformance,
                };
                self.scroll_offset = 0;
                true
            },
            KeyCode::Up => {
                if self.scroll_offset > 0 {
                    self.scroll_offset = self.scroll_offset - 1;
                }
                true
            },
            KeyCode::Down => {
                let m = self.max_scroll_of();
                if self.scroll_offset < m {
                    self.scroll_offset = self.scroll_offset + 1;
                }
                true
            },
            KeyCode::PageUp => {
                self.scroll_offset = self.scroll_offset.saturating_sub(10);
                true
            },
            KeyCode::PageDown => {
                let m = self.max_scroll_of();
                let up = self.scroll_offset.saturating_add(10);
                self.scroll_offset = if up < m { up } else { m };
                true
            },
            KeyCode::Home => {
                self.scroll_offset = 0;
                true
            },
            KeyCode::End => {
                self.scroll_offset = self.max_scroll_of();
                true
            },
            _ => true,
        }
    }
}

/// The mode of the card writing screen.
#[derive(Debug, Clone, Copy, PartialEq, Eq, Structural)]
pub enum CardMode {
    Edit,
    Normal,
    ConfigSetup,
}

/// The box being written in.
#[derive(Debug, Clone, Copy, PartialEq, Eq, Structural)]
pub enum FocusedBox {
    Question,
    UserAnswer,
    LLMAnswer,
}

/// What the card writing screen asks for after a key.
#[derive(Debug, Clone, PartialEq, Eq)]
pub enum CardAction {
    Continue,
    SaveUserAnswer,
    SaveLLMAnswer,
    StartLLMEval,
    EnterEditMode,
    Exit,
    SaveWithoutChoice,
    /// Save this API key in the configuration, then report with `config_saved`.
    SaveConfig(String),
}

/// The card being written: a question, the writer's answer and, once asked
/// for, the model's answer, each a list of lines.
pub struct CardEditor {
    pub mode: CardMode,
    pub focused: FocusedBox,
    pub question: Vec<String>,
    pub user_answer: Vec<String>,
    pub llm_answer: Option<Vec<String>>,
    pub current_line: String,
    /// Whether a model configuration is known.
    pub has_config: bool,
    pub llm_error: Option<String>,
    pub api_key_buffer: String,
}

/// The lines of `v` as texts.
pub open spec fn texts(v: Seq<String>) -> Seq<Seq<char>> {
    Seq::new(v.len(), |i: int| v[i]@)
}

impl CardEditor {
    /// A blank card, written from the question box.
    pub fn new(has_config: bool) -> (e: CardEditor)
        ensures
            e.mode == CardMode::Edit,
            e.focused == FocusedBox::Question,
            e.question@.len() == 0,
            e.user_answer@.len() == 0,
            e.llm_answer is None,
            e.current_line@.len() == 0,
            e.has_config == has_config,
            e.llm_error is None,
            e.api_key_buffer@.len() == 0,
    {
        CardEditor {
            mode: CardMode::Edit,
            focused: FocusedBox::Question,
            question: Vec::new(),
            user_answer: Vec::new(),
            llm_answer: None,
            current_line: String::new(),
            has_config,
            llm_error: None,
            api_key_buffer: String::new(),
        }
    }

    /// `new` is `old` with the line being typed moved to the end of the
    /// focused box (an empty line too, but not into the model's box) and the
    /// line cleared.
    pub open spec fn line_saved(old: CardEditor, new: CardEditor) -> bool {
        let keep = old.current_line@.len() > 0 || old.focused != FocusedBox::LLMAnswer;
        &&& new.current_line@.len() == 0
        &&& texts(new.question@) == (if keep && old.focused == FocusedBox::Question {
            texts(old.question@).push(old.current_line@)
        } else {
            texts(old.question@)
        })
        &&& texts(new.user_answer@) == (if keep && old.focused == FocusedBox::UserAnswer {
            texts(old.user_answer@).push(old.current_line@)
        } else {
            texts(old.user_answer@)
        })
        &&& match old.llm_answer {
            Some(l) => new.llm_answer matches Some(n) && texts(n@) == (if keep && old.focused
                == FocusedBox::LLMAnswer {
                texts(l@).push(old.current_line@)
            } else {
                texts(l@)
            }),
            None => new.llm_answer is None,
        }
        &&& new.mode == old.mode && new.focused == old.focused && new.has_config == old.has_config
        &&& new.llm_error == old.llm_error && new.api_key_buffer == old.api_key_buffer
    }

    fn save_current_line(&mut self)
        ensures
            CardEditor::line_saved(*old(self), *final(self)),
    {
        let keep = self.current_line.as_str().unicode_len() > 0 || self.focused != FocusedBox::LLMAnswer;
        if keep {
            let line = self.current_line.clone();
            match self.focused {
                FocusedBox::Question => {
                    let ghost before = texts(self.question@);
                    self.question.push(line);
                    proof {
                        assert(texts(self.question@) =~= before.push(old(self).current_line@));
                    }
                },
                FocusedBox::UserAnswer => {
                    let ghost before = texts(self.user_answer@);
                    self.user_answer.push(line);
                    proof {
                        assert(texts(self.user_answer@) =~= before.push(old(self).current_line@));
                    }
                },
                FocusedBox::LLMAnswer => {
                    if let Some(mut l) = self.llm_answer.take() {
                        let ghost before = texts(l@);
                        l.push(line);
                        proof {
                            assert(texts(l@) =~= before.push(old(self).current_line@));
                        }
                        self.llm_answer = Some(l);
                    }
                },
            }
        }
        self.current_line = String::new();
    }

    /// The box Tab moves to: question, answer, the model's answer when there
    /// is one, and round again.
    pub open spec fn next_box(&self) -> FocusedBox {
        match self.focused {
            FocusedBox::Question => FocusedBox::UserAnswer,
            FocusedBox::UserAnswer => if self.llm_answer is Some {
                FocusedBox::LLMAnswer
            } else {
                FocusedBox::Question
            },
            FocusedBox::LLMAnswer => FocusedBox::Question,
        }
    }

    /// Handles one key. Control+C leaves. While editing, characters are
    /// typed, Backspace erases, Tab keeps a non-empty line and moves to the
    /// next box, Enter keeps the line, Esc keeps it and stops editing. Then
    /// `e` edits again, `l` asks the model (or for an API key when none is
    /// configured), `L` and `S` save with the model's or the writer's answer
    /// when there is one, `s` saves whichever there is, Esc leaves. While an
    /// API key is typed, Enter hands a non-blank key over to be saved and Esc
    /// gives up.
    pub fn handle_key_event(&mut self, key: KeyPress) -> (a: CardAction)
        ensures
            key.ctrl && key.code == KeyCode::Char('c') ==> a == CardAction::Exit && *final(self) == *old(self),
            !(key.ctrl && key.code == KeyCode::Char('c')) ==> match old(self).mode {
                CardMode::Edit => a == CardAction::Continue && match key.code {
                    KeyCode::Char(c) => *final(self) == (CardEditor { current_line: final(self).current_line, ..*old(self) })
                        && final(self).current_line@ == old(self).current_line@.push(c),
                    KeyCode::Backspace => *final(self) == (CardEditor {
                        current_line: final(self).current_line,
                        ..*old(self)
                    }) && final(self).current_line@ == (if old(self).current_line@.len() > 0 {
                        old(self).current_line@.drop_last()
                    } else {
                        old(self).current_line@
                    }),
                    KeyCode::Tab => if old(self).current_line@.len() > 0 {
                        exists|mid: CardEditor| CardEditor::line_saved(*old(self), mid)
                            && *final(self) == (CardEditor { focused: old(self).next_box(), ..mid })
                    } else {
                        *final(self) == (CardEditor { focused: old(self).next_box(), ..*old(self) })
                    },
                    KeyCode::Enter => CardEditor::line_saved(*old(self), *final(self)),
                    KeyCode::Esc => exists|mid: CardEditor| CardEditor::line_saved(*old(self), mid)
                        && *final(self) == (CardEditor { mode: CardMode::Normal, ..mid }),
                    _ => *final(self) == *old(self),
                },
                CardMode::Normal => match key.code {
                    KeyCode::Char(c) => if c == 'e' {
                        a == CardAction::EnterEditMode && *final(self) == *old(self)
                    } else if c == 'l' {
                        if old(self).has_config {
                            a == CardAction::StartLLMEval && *final(self) == *old(self)
                        } else {
                            a == CardAction::Continue && *final(self) == (CardEditor {
                                mode: CardMode::ConfigSetup,
                                ..*old(self)
                            })
                        }
                    } else if c == 'L' {
                        a == (if old(self).llm_answer is Some {
                            CardAction::SaveLLMAnswer
                        } else {
                            CardAction::Continue
                        }) && *final(self) == *old(self)
                    } else if c == 'S' {
                        a == (if old(self).user_answer@.len() > 0 {
                            CardAction::SaveUserAnswer
                        } else {
                            CardAction::Continue
                        }) && *final(self) == *old(self)
                    } else if c == 's' {
                        a == CardAction::SaveWithoutChoice && *final(self) == *old(self)
                    } else {
                        a == CardAction::Continue && *final(self) == *old(self)
                    },
                    KeyCode::Esc => a == CardAction::Exit && *final(self) == *old(self),
                    _ => a == CardAction::Continue && *final(self) == *old(self),
                },
                CardMode::ConfigSetup => match key.code {
                    KeyCode::Char(c) => a == CardAction::Continue && *final(self) == (CardEditor {
                        api_key_buffer: final(self).api_key_buffer,
                        ..*old(self)
                    }) && final(self).api_key_buffer@ == old(self).api_key_buffer@.push(c),
                    KeyCode::Backspace => a == CardAction::Continue && *final(self) == (CardEditor {
                        api_key_buffer: final(self).api_key_buffer,
                        ..*old(self)
                    }) && final(self).api_key_buffer@ == (if old(self).api_key_buffer@.len() > 0 {
                        old(self).api_key_buffer@.drop_last()
                    } else {
                        old(self).api_key_buffer@
                    }),
                    KeyCode::Enter => if blank(old(self).api_key_buffer@) {
                        a == CardAction::Continue && *final(self) == (CardEditor { mode: CardMode::Normal, ..*old(self) })
                    } else {
                        (a matches CardAction::SaveConfig(k) && k@ == crate::text::trimmed(old(self).api_key_buffer@))
                            && *final(self) == *old(self)
                    },
                    KeyCode::Esc => a == CardAction::Continue && final(self).api_key_buffer@.len() == 0 && *final(self)
                        == (CardEditor {
                        mode: CardMode::Normal,
                        api_key_buffer: final(self).api_key_buffer,
                        ..*old(self)
                    }),
                    _ => a == CardAction::Continue && *final(self) == *old(self),
                },
            },
    {
        if key.ctrl && key.code == KeyCode::Char('c') {
            return CardAction::Exit;
        }
        match self.mode {
            CardMode::Edit => {
                match key.code {
                    KeyCode::Char(c) => push_char(&mut self.current_line, c),
                    KeyCode::Backspace => pop_char(&mut self.current_line),
                    KeyCode::Tab => {
                        if self.current_line.as_str().unicode_len() > 0 {
                            self.save_current_line();
                        }
                        self.focused = match self.focused {
                            FocusedBox::Question => FocusedBox::UserAnswer,
                            FocusedBox::UserAnswer => if self.llm_answer.is_some() {
                                FocusedBox::LLMAnswer
                            } else {
                                FocusedBox::Question
                            },
                            FocusedBox::LLMAnswer => FocusedBox::Question,
                        };
                    },
                    KeyCode::Enter => self.save_current_line(),
                    KeyCode::Esc => {
                        self.save_current_line();
                        self.mode = CardMode::Normal;
                    },
                    _ => {},
                }
                CardAction::Continue
            },
            CardMode::Normal => match key.code {
                KeyCode::Char(c) => {
                    if c == 'e' {
                        CardAction::EnterEditMode
                    } else if c == 'l' {
                        if self.has_config {
                            CardAction::StartLLMEval
                        } else {
                            self.mode = CardMode::ConfigSetup;
                            CardAction::Continue
                        }
                    } else if c == 'L' {
                        if self.llm_answer.is_some() {
                            CardAction::SaveLLMAnswer
                        } else {
                            CardAction::Continue
                        }
                    } else if c == 'S' {
                        if self.user_answer.len() > 0 {
                            CardAction::SaveUserAnswer
                        } else {
                            CardAction::Continue
                        }
                    } else if c == 's' {
                        CardAction::SaveWithoutChoice
                    } else {
                        CardAction::Continue
                    }
                },
                KeyCode::Esc => CardAction::Exit,
                _ => CardAction::Continue,
            },
            CardMode::ConfigSetup => match key.code {
                KeyCode::Char(c) => {
                    push_char(&mut self.api_key_buffer, c);
                    CardAction::Continue
                },
                KeyCode::Backspace => {
                    pop_char(&mut self.api_key_buffer);
                    CardAction::Continue
                },
                KeyCode::Enter => {
                    let k = crate::text::trim_text(self.api_key_buffer.as_str());
                    if k.as_str().unicode_len() > 0 {
                        CardAction::SaveConfig(k)
                    } else {
                        self.mode = CardMode::Normal;
                        CardAction::Continue
                    }
                },
                KeyCode::Esc => {
                    self.api_key_buffer = String::new();
                    self.mode = CardMode::Normal;
                    CardAction::Continue
                },
                _ => CardAction::Continue,
            },
        }
    }

    /// What follows saving the configuration asked for by `SaveConfig`: on
    /// success the key is forgotten, the model is known and asked; on failure
    /// the error is shown. Either way the screen leaves the key prompt.
    pub fn config_saved(&mut self, error: Option<String>) -> (a: CardAction)
        ensures
            match error {
                None => a == CardAction::StartLLMEval && final(self).has_config && final(self).api_key_buffer@.len()
                    == 0 && *final(self) == (CardEditor {
                    has_config: true,
                    api_key_buffer: final(self).api_key_buffer,
                    mode: CardMode::Normal,
                    ..*old(self)
                }),
                Some(e) => a == CardAction::Continue && (final(self).llm_error matches Some(m) && m@
                    == "Failed to save config: "@ + e@) && *final(self) == (CardEditor {
                    llm_error: final(self).llm_error,
                    mode: CardMode::Normal,
                    ..*old(self)
                }),
            },
    {
        match error {
            None => {
                self.has_config = true;
                self.api_key_buffer = String::new();
                self.mode = CardMode::Normal;
                CardAction::StartLLMEval
            },
            Some(e) => {
                self.llm_error = Some(crate::text::concat("Failed to save config: ", e.as_str()));
                proof {
                    reveal_strlit("Failed to save config: ");
                }
                self.mode = CardMode::Normal;
                CardAction::Continue
            },
        }
    }

    /// The question and answer to save after `action`: with the writer's or
    /// the model's answer, or with whichever there is (the model's first),
    /// when neither text is blank; `None` otherwise.
    pub open spec fn chosen(&self, action: CardAction) -> Option<(Seq<char>, Seq<char>)> {
        let q = joined_lines(texts(self.question@));
        let ua = joined_lines(texts(self.user_answer@));
        match action {
            CardAction::SaveUserAnswer => if !blank(q) && !blank(ua) {
                Some((q, ua))
            } else {
                None
            },
            CardAction::SaveLLMAnswer => match self.llm_answer {
                Some(l) => if !blank(q) && !blank(joined_lines(texts(l@))) {
                    Some((q, joined_lines(texts(l@))))
                } else {
                    None
                },
                None => None,
            },
            CardAction::SaveWithoutChoice => if blank(q) {
                None
            } else {
                match self.llm_answer {
                    Some(l) => if !blank(joined_lines(texts(l@))) {
                        Some((q, joined_lines(texts(l@))))
                    } else {
                        None
                    },
                    None => if self.user_answer@.len() > 0 && !blank(ua) {
                        Some((q, ua))
                    } else {
                        None
                    },
                }
            },
            _ => None,
        }
    }

    /// The card to save after `action`, as `chosen` gives it.
    pub fn card_to_save(&self, action: &CardAction) -> (r: Option<(String, String)>)
        ensures
            match r {
                Some((q, a)) => self.chosen(*action) == Some((q@, a@)),
                None => self.chosen(*action) is None,
            },
    {
        let q = join_lines(&self.question);
        let q_blank = crate::text::trim_text(q.as_str()).as_str().unicode_len() == 0;
        proof {
            assert(texts(self.question@) == Seq::new(self.question@.len(), |i: int| self.question@[i]@));
        }
        match action {
            CardAction::SaveUserAnswer => {
                let ua = join_lines(&self.user_answer);
                proof {
                    assert(texts(self.user_answer@) == Seq::new(self.user_answer@.len(), |i: int| self.user_answer@[i]@));
                }
                if !q_blank && crate::text::trim_text(ua.as_str()).as_str().unicode_len() > 0 {
                    Some((q, ua))
                } else {
                    None
                }
            },
            CardAction::SaveLLMAnswer => match &self.llm_answer {
                Some(l) => {
                    let la = join_lines(l);
                    proof {
                        assert(texts(l@) == Seq::new(l@.len(), |i: int| l@[i]@));
                    }
                    if !q_blank && crate::text::trim_text(la.as_str()).as_str().unicode_len() > 0 {
                        Some((q, la))
                    } else {
                        None
                    }
                },
                None => None,
            },
            CardAction::SaveWithoutChoice => {
                if q_blank {
                    return None;
                }
                match &self.llm_answer {
                    Some(l) => {
                        let la = join_lines(l);
                        proof {
                            assert(texts(l@) == Seq::new(l@.len(), |i: int| l@[i]@));
                        }
                        if crate::text::trim_text(la.as_str()).as_str().unicode_len() > 0 {
                            Some((q, la))
                        } else {
                            None
                        }
                    },
                    None => {
                        if self.user_answer.len() == 0 {
                            return None;
                        }
                        let ua = join_lines(&self.user_answer);
                        proof {
                            assert(texts(self.user_answer@) == Seq::new(
                                self.user_answer@.len(),
                                |i: int| self.user_answer@[i]@,
                            ));
                        }
                        if crate::text::trim_text(ua.as_str()).as_str().unicode_len() > 0 {
                            Some((q, ua))
                        } else {
                            None
                        }
                    },
                }
            },
            _ => None,
        }
    }
}

} // verus!
