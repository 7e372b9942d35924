//! Review sessions: rating tallies, elapsed days, and the keys of the
//! review screen.

use vstd::prelude::*;

use crate::keys::{KeyCode, KeyPress};

verus! {

/// Tallies of a review session's ratings.
pub struct ReviewSummary {
    pub total_reviewed: usize,
    pub again_count: usize,
    pub hard_count: usize,
    pub good_count: usize,
    pub easy_count: usize,
}

impl Default for ReviewSummary {
    /// Nothing reviewed yet.
    fn default() -> (s: ReviewSummary)
        ensures
            s.total_reviewed == 0,
            s.again_count == 0,
            s.hard_count == 0,
            s.good_count == 0,
            s.easy_count == 0,
    {
        ReviewSummary { total_reviewed: 0, again_count: 0, hard_count: 0, good_count: 0, easy_count: 0 }
    }
}

/// How many of `ratings[..k]` equal `r`.
pub open spec fn count_rating(ratings: Seq<u8>, r: u8, k: int) -> nat
    decreases k,
{
    if k <= 0 {
        0
    } else if ratings[k - 1] == r {
        count_rating(ratings, r, k - 1) + 1
    } else {
        count_rating(ratings, r, k - 1)
    }
}

proof fn lemma_count_rating(ratings: Seq<u8>, r: u8, k: int)
    requires
        0 <= k <= ratings.len(),
    ensures
        count_rating(ratings, r, k) <= k,
    decreases k,
{
    if k > 0 {
        lemma_count_rating(ratings, r, k - 1);
    }
}

/// The tallies of a session's ratings (1 again, 2 hard, 3 good, 4 easy;
/// others only count toward the total).
pub fn summarize(ratings: &Vec<u8>) -> (s: ReviewSummary)
    ensures
        s.total_reviewed == ratings@.len(),
        s.again_count == count_rating(ratings@, 1, ratings@.len() as int),
        s.hard_count == count_rating(ratings@, 2, ratings@.len() as int),
        s.good_count == count_rating(ratings@, 3, ratings@.len() as int),
        s.easy_count == count_rating(ratings@, 4, ratings@.len() as int),
{
    let mut s = ReviewSummary::default();
    s.total_reviewed = ratings.len();
    let mut k: usize = 0;
    while k < ratings.len()
        invariant
            k <= ratings@.len(),
            s.total_reviewed == ratings@.len(),
            s.again_count == count_rating(ratings@, 1, k as int),
            s.hard_count == count_rating(ratings@, 2, k as int),
            s.good_count == count_rating(ratings@, 3, k as int),
            s.easy_count == count_rating(ratings@, 4, k as int),
        decreases ratings@.len() - k,
    {
        proof {
            lemma_count_rating(ratings@, 1, k as int);
            lemma_count_rating(ratings@, 2, k as int);
            lemma_count_rating(ratings@, 3, k as int);
            lemma_count_rating(ratings@, 4, k as int);
        }
        match ratings[k] {
            1 => s.again_count = s.again_count + 1,
            2 => s.hard_count = s.hard_count + 1,
            3 => s.good_count = s.good_count + 1,
            4 => s.easy_count = s.easy_count + 1,
            _ => {},
        }
        k = k + 1;
    }
    s
}

/// Whether `rating` is one of the four ratings (1 to 4).
pub fn valid_rating(rating: u8) -> (r: bool)
    ensures
        r == (1 <= rating <= 4),
{
    1 <= rating && rating <= 4
}

/// Whole days from `last` to `now` (milliseconds), truncated toward zero.
pub open spec fn days_between(last: i64, now: i64) -> int {
    let d = now - last;
    if d >= 0 {
        d / 86_400_000
    } else {
        -((-d) / 86_400_000)
    }
}

/// Days since the last review, never below zero, as a 32-bit count (none
/// reviewed yet: zero).
pub fn review_elapsed_days(now: i64, last_review: Option<i64>) -> (r: u32)
    ensures
        r == match last_review {
            Some(last) => (if days_between(last, now) > 0 { days_between(last, now) } else { 0 }) as u32,
            None => 0,
        },
{
    match last_review {
        None => 0,
        Some(last) => {
            let d: i128 = now as i128 - last as i128;
            let days: i128 = if d >= 0 {
                d / 86_400_000
            } else {
                -((-d) / 86_400_000)
            };
            let kept: i128 = if days > 0 {
                days
            } else {
                0
            };
            #[verifier::truncate]
            (kept as u32)
        },
    }
}

/// The ratings held after `rating` is submitted to a session of `n` due
/// cards holding `held`: kept when it is one of the four and a card is left.
pub open spec fn rating_step(n: nat, held: Seq<u8>, rating: u8) -> Seq<u8> {
    if 1 <= rating <= 4 && held.len() < n {
        held.push(rating)
    } else {
        held
    }
}

/// The ratings held after each of `tries` is submitted in turn.
pub open spec fn ratings_after(n: nat, held: Seq<u8>, tries: Seq<u8>) -> Seq<u8>
    decreases tries.len(),
{
    if tries.len() == 0 {
        held
    } else {
        ratings_after(n, rating_step(n, held, tries[0]), tries.drop_first())
    }
}

/// How many of `tries` a session of `n` due cards with `k` reviewed accepts.
pub open spec fn accepted_count(n: nat, k: nat, tries: Seq<u8>) -> nat
    decreases tries.len(),
{
    if tries.len() == 0 {
        0
    } else if 1 <= tries[0] <= 4 && k < n {
        1 + accepted_count(n, k + 1, tries.drop_first())
    } else {
        accepted_count(n, k, tries.drop_first())
    }
}

/// A review session: the cards due, in review order, the place of the card
/// under review, and the ratings submitted so far. Scheduling a rated card
/// and storing its new schedule are left to the caller.
pub struct ReviewSession {
    /// Identifiers of the cards due.
    pub due_cards: Vec<String>,
    pub current_index: usize,
    /// The ratings submitted, in order.
    pub ratings: Vec<u8>,
}

impl ReviewSession {
    /// One rating per card reviewed, each from 1 to 4.
    pub open spec fn wf(&self) -> bool {
        &&& self.current_index <= self.due_cards@.len()
        &&& self.ratings@.len() == self.current_index
        &&& forall|i: int| 0 <= i < self.ratings@.len() ==> 1 <= #[trigger] self.ratings@[i] <= 4
    }

    /// A session over `due_cards`, starting at the first; none due is an
    /// error.
    pub fn new(due_cards: Vec<String>) -> (r: Result<ReviewSession, String>)
        ensures
            due_cards@.len() == 0 <==> r is Err,
            r matches Err(m) ==> m@ == "No cards due for review"@,
            r matches Ok(s) ==> {
                &&& s.wf()
                &&& s.due_cards@ == due_cards@
                &&& s.current_index == 0
                &&& s.ratings@.len() == 0
            },
    {
        if due_cards.len() == 0 {
            return Err("No cards due for review".to_owned());
        }
        Ok(ReviewSession { due_cards, current_index: 0, ratings: Vec::new() })
    }

    /// The card under review, if any is left.
    pub fn current_card(&self) -> (r: Option<&String>)
        ensures
            self.current_index < self.due_cards@.len() ==> r == Some(&self.due_cards@[self.current_index as int]),
            self.current_index >= self.due_cards@.len() ==> r is None,
    {
        if self.current_index < self.due_cards.len() {
            Some(&self.due_cards[self.current_index])
        } else {
            None
        }
    }

    /// The place of the card under review, counted from one, and the number
    /// of cards due.
    pub fn progress(&self) -> (r: (usize, usize))
        requires
            self.current_index < usize::MAX,
        ensures
            r.0 == self.current_index + 1,
            r.1 == self.due_cards@.len(),
    {
        (self.current_index + 1, self.due_cards.len())
    }

    /// Whether every card due has been reviewed.
    pub fn is_complete(&self) -> (r: bool)
        ensures
            r == (self.current_index >= self.due_cards@.len()),
    {
        self.current_index >= self.due_cards.len()
    }

    /// Records `rating` for the card under review and moves to the next; a
    /// rating outside 1 to 4, or none left to rate, is an error and changes
    /// nothing.
    pub fn submit_rating(&mut self, rating: u8) -> (r: Result<(), String>)
        requires
            old(self).wf(),
        ensures
            final(self).wf(),
            final(self).due_cards@ == old(self).due_cards@,
            final(self).ratings@ == rating_step(old(self).due_cards@.len(), old(self).ratings@, rating),
            r is Ok <==> (1 <= rating <= 4 && old(self).current_index < old(self).due_cards@.len()),
            r is Ok ==> final(self).current_index == old(self).current_index + 1,
            r is Err ==> final(self).current_index == old(self).current_index,
            !(1 <= rating <= 4) ==> (r matches Err(m) && m@ == "Rating must be between 1 and 4"@),
            (1 <= rating <= 4 && old(self).current_index >= old(self).due_cards@.len()) ==> (r matches Err(m)
                && m@ == "No current card to rate"@),
    {
        if !valid_rating(rating) {
            return Err("Rating must be between 1 and 4".to_owned());
        }
        if self.current_index >= self.due_cards.len() {
            return Err("No current card to rate".to_owned());
        }
        self.ratings.push(rating);
        self.current_index = self.current_index + 1;
        Ok(())
    }

    /// The tallies of the ratings submitted.
    pub fn summary(&self) -> (s: ReviewSummary)
        ensures
            s.total_reviewed == self.ratings@.len(),
            s.again_count == count_rating(self.ratings@, 1, self.ratings@.len() as int),
            s.hard_count == count_rating(self.ratings@, 2, self.ratings@.len() as int),
            s.good_count == count_rating(self.ratings@, 3, self.ratings@.len() as int),
            s.easy_count == count_rating(self.ratings@, 4, self.ratings@.len() as int),
    {
        summarize(&self.ratings)
    }
}

/// Where the review screen is.
#[derive(Debug, Clone, Copy, PartialEq, Eq, Structural)]
pub enum ReviewState {
    ShowingQuestion,
    InputtingAnswer,
    ShowingAnswer,
    Complete,
}

/// What the review screen does after a key.
#[derive(Debug, Clone, Copy, PartialEq, Eq, Structural)]
pub enum ReviewAction {
    Continue,
    StartInput,
    RevealAnswer,
    SubmitRating(u8),
    Exit,
}

/// Calls `String::push`: `s` with `c` appended.
#[verifier::external_body]
pub(crate) fn push_char(s: &mut String, c: char)
    ensures
        final(s)@ == old(s)@.push(c),
{
    s.push(c)
}

/// Calls `String::pop`: `s` without its last character, when it has one.
#[verifier::external_body]
pub(crate) fn pop_char(s: &mut String)
    ensures
        final(s)@ == (if old(s)@.len() > 0 { old(s)@.drop_last() } else { old(s)@ }),
{
    s.pop();
}

/// The typed answer and where the review screen is.
pub struct ReviewInput {
    pub state: ReviewState,
    /// Lines of the answer typed so far.
    pub user_input: Vec<String>,
    /// The line being typed.
    pub current_line: String,
}

impl ReviewInput {
    /// What a key does: Control-C and Esc leave; a question waits for
    /// Space or Enter; while answering, characters are typed, Backspace
    /// erases, Enter ends a line or, on a blank line after some answer,
    /// reveals the answer; an answer shown takes a rating 1 to 4; a finished
    /// session leaves.
    pub open spec fn key_result(
        state: ReviewState,
        lines: Seq<Seq<char>>,
        line: Seq<char>,
        key: KeyPress,
    ) -> (ReviewAction, Seq<Seq<char>>, Seq<char>) {
        if (key.code == KeyCode::Char('c') && key.ctrl) || key.code == KeyCode::Esc {
            (ReviewAction::Exit, lines, line)
        } else {
            match state {
                ReviewState::ShowingQuestion => if key.code == KeyCode::Char(' ') || key.code == KeyCode::Enter {
                    (ReviewAction::StartInput, lines, line)
                } else {
                    (ReviewAction::Continue, lines, line)
                },
                ReviewState::InputtingAnswer => match key.code {
                    KeyCode::Char(c) => (ReviewAction::Continue, lines, line.push(c)),
                    KeyCode::Backspace => (
                        ReviewAction::Continue,
                        lines,
                        if line.len() > 0 { line.drop_last() } else { line },
                    ),
                    KeyCode::Enter => if crate::text::blank(line) && lines.len() > 0 {
                        (ReviewAction::RevealAnswer, lines, line)
                    } else {
                        (ReviewAction::Continue, lines.push(line), Seq::empty())
                    },
                    _ => (ReviewAction::Continue, lines, line),
                },
                ReviewState::ShowingAnswer => match key.code {
                    KeyCode::Char(c) => if c == '1' {
                        (ReviewAction::SubmitRating(1), lines, line)
                    } else if c == '2' {
                        (ReviewAction::SubmitRating(2), lines, line)
                    } else if c == '3' {
                        (ReviewAction::SubmitRating(3), lines, line)
                    } else if c == '4' {
                        (ReviewAction::SubmitRating(4), lines, line)
                    } else {
                        (ReviewAction::Continue, lines, line)
                    },
                    _ => (ReviewAction::Continue, lines, line),
                },
                ReviewState::Complete => (ReviewAction::Exit, lines, line),
            }
        }
    }

    /// The typed lines as texts.
    pub open spec fn lines(&self) -> Seq<Seq<char>> {
        Seq::new(self.user_input@.len(), |i: int| self.user_input@[i]@)
    }

    /// Handles one key of the review screen.
    pub fn handle_key_event(&mut self, key: KeyPress) -> (action: ReviewAction)
        ensures
            ({
                let (a, lines, line) = ReviewInput::key_result(
                    old(self).state,
                    old(self).lines(),
                    old(self).current_line@,
                    key,
                );
                &&& action == a
                &&& final(self).lines() == lines
                &&& final(self).current_line@ == line
                &&& final(self).state == old(self).state
            }),
    {
        let exit = match key.code {
            KeyCode::Char(c) => c == 'c' && key.ctrl,
            KeyCode::Esc => true,
            _ => false,
        };
        if exit {
            return ReviewAction::Exit;
        }
        match self.state {
            ReviewState::ShowingQuestion => match key.code {
                KeyCode::Char(c) => if c == ' ' {
                    ReviewAction::StartInput
                } else {
                    ReviewAction::Continue
                },
                KeyCode::Enter => ReviewAction::StartInput,
                _ => ReviewAction::Continue,
            },
            ReviewState::InputtingAnswer => match key.code {
                KeyCode::Char(c) => {
                    push_char(&mut self.current_line, c);
                    ReviewAction::Continue
                },
                KeyCode::Backspace => {
                    pop_char(&mut self.current_line);
                    ReviewAction::Continue
                },
                KeyCode::Enter => {
                    let t = crate::text::trim_text(self.current_line.as_str());
                    if t.as_str().unicode_len() == 0 && self.user_input.len() > 0 {
                        ReviewAction::RevealAnswer
                    } else {
                        let line = self.current_line.clone();
                        let ghost before = self.lines();
                        self.user_input.push(line);
                        self.current_line = String::new();
                        proof {
                            assert(self.lines() =~= before.push(old(self).current_line@));
                        }
                        ReviewAction::Continue
                    }
                },
                _ => ReviewAction::Continue,
            },
            ReviewState::ShowingAnswer => match key.code {
                KeyCode::Char(c) => if c == '1' {
                    ReviewAction::SubmitRating(1)
                } else if c == '2' {
                    ReviewAction::SubmitRating(2)
                } else if c == '3' {
                    ReviewAction::SubmitRating(3)
                } else if c == '4' {
                    ReviewAction::SubmitRating(4)
                } else {
                    ReviewAction::Continue
                },
                _ => ReviewAction::Continue,
            },
            ReviewState::Complete => ReviewAction::Exit,
        }
    }
}

} // verus!
