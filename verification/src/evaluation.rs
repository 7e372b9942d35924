//! Reading a model's evaluation of an answer: the ideal answer, the score
//! and the feedback, each introduced by its label at the start of a line.

use vstd::prelude::*;

use crate::review::push_char;
use crate::text::{concat, decimal, trim_text, trimmed};

verus! {

/// `l` without one trailing carriage return.
pub open spec fn strip_cr(l: Seq<char>) -> Seq<char> {
    if l.len() > 0 && l.last() == '\r' {
        l.drop_last()
    } else {
        l
    }
}

/// Position of the first line feed of `s` at or after `k`, or -1.
pub open spec fn newline_from(s: Seq<char>, k: int) -> int
    decreases s.len() - k,
    when 0 <= k
{
    if k >= s.len() {
        -1
    } else if s[k] == '\n' {
        k
    } else {
        newline_from(s, k + 1)
    }
}

/// The lines of `s` as `str::lines` gives them: split at line feeds, each
/// without a trailing carriage return, with no empty line after a final line
/// feed.
pub open spec fn text_lines(s: Seq<char>) -> Seq<Seq<char>>
    decreases s.len(),
{
    if s.len() == 0 {
        Seq::empty()
    } else {
        let i = newline_from(s, 0);
        proof {
            lemma_newline_bound(s, 0);
        }
        if i < 0 {
            seq![strip_cr(s)]
        } else {
            seq![strip_cr(s.subrange(0, i))] + text_lines(s.subrange(i + 1, s.len() as int))
        }
    }
}

/// Whether `s` starts with `p`.
pub open spec fn starts_with(s: Seq<char>, p: Seq<char>) -> bool {
    p.len() <= s.len() && s.subrange(0, p.len() as int) == p
}

/// The section a line without a label continues.
#[derive(Debug, Clone, Copy, PartialEq, Eq, Structural)]
pub enum Section {
    Neither,
    Ideal,
    Feedback,
}

/// What has been read so far: the ideal answer and feedback (each piece
/// followed by a space), the text of the last score line, and the section
/// being read.
pub struct ReadState {
    pub ideal: Seq<char>,
    pub score: Option<Seq<char>>,
    pub feedback: Seq<char>,
    pub section: Section,
}

pub open spec fn ideal_label() -> Seq<char> {
    "IDEAL_ANSWER:"@
}

pub open spec fn score_label() -> Seq<char> {
    "SCORE:"@
}

pub open spec fn feedback_label() -> Seq<char> {
    "FEEDBACK:"@
}

/// `acc` with `piece` and a space added, unless `piece` is empty.
pub open spec fn add_piece(acc: Seq<char>, piece: Seq<char>) -> Seq<char> {
    if piece.len() == 0 {
        acc
    } else {
        acc + piece + seq![' ']
    }
}

/// Reads one line.
pub open spec fn read_line(st: ReadState, line: Seq<char>) -> ReadState {
    if starts_with(line, ideal_label()) {
        ReadState {
            ideal: add_piece(st.ideal, trimmed(line.subrange(13, line.len() as int))),
            section: Section::Ideal,
            ..st
        }
    } else if starts_with(line, score_label()) {
        ReadState { score: Some(trimmed(line.subrange(6, line.len() as int))), section: Section::Neither, ..st }
    } else if starts_with(line, feedback_label()) {
        ReadState {
            feedback: add_piece(st.feedback, trimmed(line.subrange(9, line.len() as int))),
            section: Section::Feedback,
            ..st
        }
    } else {
        match st.section {
            Section::Ideal => ReadState { ideal: st.ideal + trimmed(line) + seq![' '], ..st },
            Section::Feedback => ReadState { feedback: st.feedback + trimmed(line) + seq![' '], ..st },
            Section::Neither => st,
        }
    }
}

/// Reads the lines one after the other.
pub open spec fn read_lines(st: ReadState, lines: Seq<Seq<char>>) -> ReadState
    decreases lines.len(),
{
    if lines.len() == 0 {
        st
    } else {
        read_lines(read_line(st, lines[0]), lines.drop_first())
    }
}

/// The state before any line.
pub open spec fn start_state() -> ReadState {
    ReadState { ideal: Seq::empty(), score: None, feedback: Seq::empty(), section: Section::Neither }
}

/// The text of an optional string.
pub open spec fn text_of(o: Option<String>) -> Option<Seq<char>> {
    match o {
        Some(t) => Some(t@),
        None => None,
    }
}

/// An evaluation as read: the ideal answer, the text of the score (when a
/// score line was seen) and the feedback.
pub struct ParsedEvaluation {
    pub ideal_answer: String,
    pub score_text: Option<String>,
    pub feedback: String,
}

/// What reading `content` gives: the trimmed ideal answer and feedback; when
/// both are empty, no ideal answer and the whole content as feedback.
pub open spec fn evaluation_of(content: Seq<char>) -> (Seq<char>, Option<Seq<char>>, Seq<char>) {
    let st = read_lines(start_state(), text_lines(content));
    let ideal = trimmed(st.ideal);
    let feedback = trimmed(st.feedback);
    if ideal.len() == 0 && feedback.len() == 0 {
        (Seq::empty(), st.score, content)
    } else {
        (ideal, st.score, feedback)
    }
}

pub proof fn lemma_newline_bound(s: Seq<char>, k: int)
    requires
        0 <= k,
    ensures
        newline_from(s, k) == -1 || (k <= newline_from(s, k) < s.len()),
    decreases s.len() - k,
{
    if k < s.len() {
        lemma_newline_bound(s, k + 1);
    }
}

proof fn lemma_newline_from(s: Seq<char>, k: int, j: int)
    requires
        0 <= k <= j <= s.len(),
        forall|x: int| k <= x < j ==> s[x] != '\n',
        j == s.len() || s[j] == '\n',
    ensures
        newline_from(s, k) == (if j == s.len() { -1 } else { j }),
    decreases j - k,
{
    if k < j {
        lemma_newline_from(s, k + 1, j);
    }
}

proof fn lemma_newline_shift(s: Seq<char>, pos: int, k: int)
    requires
        0 <= pos <= k <= s.len(),
    ensures
        newline_from(s.subrange(pos, s.len() as int), k - pos) == (if newline_from(s, k) < 0 {
            -1
        } else {
            newline_from(s, k) - pos
        }),
    decreases s.len() - k,
{
    if k < s.len() {
        lemma_newline_shift(s, pos, k + 1);
    }
}

/// Whether `line` starts with the label `p`.
fn has_label(line: &str, p: &str) -> (r: bool)
    ensures
        r == starts_with(line@, p@),
{
    let n = line.unicode_len();
    let m = p.unicode_len();
    if m > n {
        return false;
    }
    let mut k: usize = 0;
    while k < m
        invariant
            k <= m <= n,
            n == line@.len(),
            m == p@.len(),
            forall|x: int| 0 <= x < k ==> line@[x] == p@[x],
        decreases m - k,
    {
        if line.get_char(k) != p.get_char(k) {
            return false;
        }
        k = k + 1;
    }
    proof {
        assert(line@.subrange(0, m as int) =~= p@);
    }
    true
}

/// `acc` with `piece` and a space added, unless `piece` is empty.
fn add_piece_to(acc: &String, piece: &String) -> (r: String)
    ensures
        r@ == add_piece(acc@, piece@),
{
    if piece.as_str().unicode_len() == 0 {
        acc.clone()
    } else {
        let mut r = concat(acc.as_str(), piece.as_str());
        push_char(&mut r, ' ');
        r
    }
}

/// Reads a model's evaluation: the lines after `IDEAL_ANSWER:` up to another
/// label make the ideal answer, those after `FEEDBACK:` the feedback, and the
/// last `SCORE:` line gives the score's text; when neither answer nor
/// feedback is found, the whole content is the feedback.
pub fn parse_evaluation_response(content: &str) -> (r: ParsedEvaluation)
    ensures
        ({
            let (ideal, score, feedback) = evaluation_of(content@);
            &&& r.ideal_answer@ == ideal
            &&& text_of(r.score_text) == score
            &&& r.feedback@ == feedback
        }),
{
    let ghost s = content@;
    let n = content.unicode_len();
    let mut ideal = String::new();
    let mut score: Option<String> = None;
    let mut feedback = String::new();
    let mut section = Section::Neither;
    let mut pos: usize = 0;
    let ghost goal = read_lines(start_state(), text_lines(s));
    proof {
        assert(s.subrange(0, s.len() as int) =~= s);
    }
    while pos < n
        invariant
            pos <= n,
            n == s.len(),
            s == content@,
            goal == read_lines(
                ReadState {
                    ideal: ideal@,
                    score: text_of(score),
                    feedback: feedback@,
                    section,
                },
                text_lines(s.subrange(pos as int, n as int)),
            ),
        decreases n - pos,
    {
        let mut j: usize = pos;
        while j < n && content.get_char(j) != '\n'
            invariant
                pos <= j <= n,
                n == s.len(),
                s == content@,
                forall|x: int| pos <= x < j ==> s[x] != '\n',
            decreases n - j,
        {
            j = j + 1;
        }
        let ghost rest = s.subrange(pos as int, n as int);
        proof {
            lemma_newline_from(s, pos as int, j as int);
            lemma_newline_shift(s, pos as int, pos as int);
            assert(rest.len() > 0);
            if j < n {
                assert(rest.subrange(0, j - pos) =~= s.subrange(pos as int, j as int));
                assert(rest.subrange(j - pos + 1, rest.len() as int) =~= s.subrange(j + 1, n as int));
            } else {
                assert(rest =~= s.subrange(pos as int, j as int));
            }
        }
        let raw = content.substring_char(pos, j);
        let rl = raw.unicode_len();
        let line: &str = if rl > 0 && raw.get_char(rl - 1) == '\r' {
            raw.substring_char(0, rl - 1)
        } else {
            raw
        };
        proof {
            assert(line@ == strip_cr(s.subrange(pos as int, j as int)));
        }
        let ghost before = ReadState {
            ideal: ideal@,
            score: text_of(score),
            feedback: feedback@,
            section,
        };
        let ll = line.unicode_len();
        if has_label(line, "IDEAL_ANSWER:") {
            proof {
                reveal_strlit("IDEAL_ANSWER:");
            }
            let piece = trim_text(line.substring_char(13, ll));
            ideal = add_piece_to(&ideal, &piece);
            section = Section::Ideal;
        } else if has_label(line, "SCORE:") {
            proof {
                reveal_strlit("SCORE:");
            }
            score = Some(trim_text(line.substring_char(6, ll)));
            section = Section::Neither;
        } else if has_label(line, "FEEDBACK:") {
            proof {
                reveal_strlit("FEEDBACK:");
            }
            let piece = trim_text(line.substring_char(9, ll));
            feedback = add_piece_to(&feedback, &piece);
            section = Section::Feedback;
        } else {
            match section {
                Section::Ideal => {
                    let t = trim_text(line);
                    ideal = concat(ideal.as_str(), t.as_str());
                    push_char(&mut ideal, ' ');
                },
                Section::Feedback => {
                    let t = trim_text(line);
                    feedback = concat(feedback.as_str(), t.as_str());
                    push_char(&mut feedback, ' ');
                },
                Section::Neither => {},
            }
        }
        proof {
            let after = ReadState {
                ideal: ideal@,
                score: text_of(score),
                feedback: feedback@,
                section,
            };
            let expect = read_line(before, line@);
            assert(after.ideal =~= expect.ideal);
            assert(after.feedback =~= expect.feedback);
            assert(after.score == expect.score);
            assert(after.section == expect.section);
            assert(after == read_line(before, line@));
            let ls = text_lines(rest);
            assert(ls[0] == line@);
            if j < n {
                assert(ls.drop_first() =~= text_lines(s.subrange(j + 1, n as int)));
            } else {
                assert(ls.drop_first() =~= text_lines(s.subrange(n as int, n as int)));
            }
        }
        pos = if j < n { j + 1 } else { n };
    }
    proof {
        assert(text_lines(s.subrange(n as int, n as int)) =~= Seq::<Seq<char>>::empty());
    }
    let ti = trim_text(ideal.as_str());
    let tf = trim_text(feedback.as_str());
    if ti.as_str().unicode_len() == 0 && tf.as_str().unicode_len() == 0 {
        ParsedEvaluation { ideal_answer: String::new(), score_text: score, feedback: content.to_string() }
    } else {
        ParsedEvaluation { ideal_answer: ti, score_text: score, feedback: tf }
    }
}

/// The request to grade `answer` to `question`, asking for the three labels.
pub open spec fn evaluation_prompt(question: Seq<char>, answer: Seq<char>) -> Seq<char> {
    "You are a teacher grading an exam answer.\n\nQuestion: "@ + question + "\nStudent's Answer: "@ + answer
        + "\n\nEvaluate the answer and provide:\nIDEAL_ANSWER: [A complete, accurate answer that would score 100%]\nSCORE: [0-100 based on accuracy and completeness]\nFEEDBACK: [One sentence explaining what was good or what was missing]"@
}

/// The grading request with `question` and `answer` put in.
fn grading_request(question: &str, answer: &str) -> (r: String)
    ensures
        r@ == evaluation_prompt(question@, answer@),
{
    let mut r = "You are a teacher grading an exam answer.\n\nQuestion: ".to_owned();
    r.append(question);
    r.append("\nStudent's Answer: ");
    r.append(answer);
    r.append(
        "\n\nEvaluate the answer and provide:\nIDEAL_ANSWER: [A complete, accurate answer that would score 100%]\nSCORE: [0-100 based on accuracy and completeness]\nFEEDBACK: [One sentence explaining what was good or what was missing]",
    );
    r
}

/// The request a model is sent to grade `user_answer` to `question`.
pub fn build_evaluation_prompt(question: &str, user_answer: &str) -> (r: String)
    ensures
        r@ == evaluation_prompt(question@, user_answer@),
{
    grading_request(question, user_answer)
}

/// The texts joined with `sep` between them.
pub open spec fn joined_with(items: Seq<Seq<char>>, sep: Seq<char>) -> Seq<char>
    decreases items.len(),
{
    if items.len() == 0 {
        Seq::empty()
    } else if items.len() == 1 {
        items[0]
    } else {
        joined_with(items.drop_last(), sep) + sep + items.last()
    }
}

/// The texts of `v`.
pub open spec fn strings_text(v: Seq<String>) -> Seq<Seq<char>> {
    Seq::new(v.len(), |i: int| v[i]@)
}

fn join_with(items: &[String], sep: &str) -> (r: String)
    ensures
        r@ == joined_with(strings_text(items@), sep@),
{
    let ghost all = strings_text(items@);
    let mut r = String::new();
    let mut k: usize = 0;
    while k < items.len()
        invariant
            k <= items@.len(),
            all == strings_text(items@),
            r@ == joined_with(all.subrange(0, k as int), sep@),
        decreases items@.len() - k,
    {
        proof {
            let next = all.subrange(0, k + 1);
            assert(next.drop_last() =~= all.subrange(0, k as int));
            assert(next.last() == items@[k as int]@);
        }
        if k > 0 {
            r = concat(r.as_str(), sep);
        } else {
            proof {
                assert(all.subrange(0, 1)[0] == items@[0]@);
            }
        }
        r = concat(r.as_str(), items[k].as_str());
        k = k + 1;
    }
    proof {
        assert(all.subrange(0, items@.len() as int) =~= all);
    }
    r
}

/// The opening of the request for a new question on the topics `topics`.
pub open spec fn question_request_head(topics: Seq<char>) -> Seq<char> {
    "You are a teacher creating exam questions. Generate ONE clear, specific question that covers these topics: "@
        + topics
        + "\n\nThe question should:\n- Test understanding of these concepts\n- Be answerable in 2-3 sentences\n- Be specific and focused\n- Cover a DIFFERENT aspect than previous questions"@
}

/// The opening of the question request with `topics` put in.
fn question_request(topics: &str) -> (r: String)
    ensures
        r@ == question_request_head(topics@),
{
    let mut r = "You are a teacher creating exam questions. Generate ONE clear, specific question that covers these topics: ".to_owned();
    r.append(topics);
    r.append(
        "\n\nThe question should:\n- Test understanding of these concepts\n- Be answerable in 2-3 sentences\n- Be specific and focused\n- Cover a DIFFERENT aspect than previous questions",
    );
    r
}

/// A numbered line: `n`, a full stop, a space, `q` and a line break.
fn numbered_line(n: usize, q: &str) -> (r: String)
    ensures
        r@ == decimal(n as nat) + ". "@ + q@ + "\n"@,
{
    let mut r = crate::text::decimal_text(n as u64);
    r.append(". ");
    r.append(q);
    r.append("\n");
    r
}

/// The previous questions, numbered from one, a line each.
pub open spec fn numbered_lines(qs: Seq<Seq<char>>) -> Seq<char>
    decreases qs.len(),
{
    if qs.len() == 0 {
        Seq::empty()
    } else {
        numbered_lines(qs.drop_last()) + decimal(qs.len()) + ". "@ + qs.last() + "\n"@
    }
}

/// The request for a new question on `keywords`, listing the questions
/// asked before (when there are any) so that another aspect is chosen.
pub open spec fn question_prompt(keywords: Seq<Seq<char>>, previous: Seq<Seq<char>>) -> Seq<char> {
    let head = question_request_head(joined_with(keywords, ", "@));
    let middle = if previous.len() == 0 {
        Seq::empty()
    } else {
        "\n\nPrevious questions asked (DO NOT repeat these aspects):\n"@ + numbered_lines(previous)
            + "\nGenerate a question that explores a different aspect of the topics."@
    };
    head + middle + "\n\nProvide ONLY the question text, nothing else."@
}

/// The request a model is sent for a new question on `keywords`.
pub fn build_question_prompt(keywords: &[String], previous_questions: &[String]) -> (r: String)
    requires
        previous_questions@.len() < usize::MAX,
    ensures
        r@ == question_prompt(strings_text(keywords@), strings_text(previous_questions@)),
{
    let topics = join_with(keywords, ", ");
    let mut prompt = question_request(topics.as_str());
    let ghost head = prompt@;
    let ghost prev = strings_text(previous_questions@);
    if previous_questions.len() > 0 {
        prompt = concat(prompt.as_str(), "\n\nPrevious questions asked (DO NOT repeat these aspects):\n");
        let ghost opening = prompt@;
        let mut i: usize = 0;
        while i < previous_questions.len()
            invariant
                i <= previous_questions@.len(),
                previous_questions@.len() < usize::MAX,
                prev == strings_text(previous_questions@),
                prompt@ == opening + numbered_lines(prev.subrange(0, i as int)),
            decreases previous_questions@.len() - i,
        {
            let line = numbered_line(i + 1, previous_questions[i].as_str());
            proof {
                let next = prev.subrange(0, i + 1);
                assert(next.drop_last() =~= prev.subrange(0, i as int));
                assert(next.last() == previous_questions@[i as int]@);
                assert(opening + numbered_lines(next) =~= opening + numbered_lines(prev.subrange(0, i as int))
                    + line@);
            }
            prompt = concat(prompt.as_str(), line.as_str());
            i = i + 1;
        }
        proof {
            assert(prev.subrange(0, previous_questions@.len() as int) =~= prev);
        }
        prompt = concat(prompt.as_str(), "\nGenerate a question that explores a different aspect of the topics.");
    }
    prompt = concat(prompt.as_str(), "\n\nProvide ONLY the question text, nothing else.");
    proof {
        reveal_strlit("\n\nPrevious questions asked (DO NOT repeat these aspects):\n");
        reveal_strlit("\nGenerate a question that explores a different aspect of the topics.");
        reveal_strlit("\n\nProvide ONLY the question text, nothing else.");
        assert(prompt@ =~= question_prompt(strings_text(keywords@), prev));
    }
    prompt
}

/// The language-model providers that answers can be evaluated with.
#[derive(Debug, Clone, Copy, PartialEq, Eq, Structural)]
pub enum Provider {
    Groq,
}

/// The evaluator a configuration asks for: Groq for the provider "groq";
/// any other provider is refused with "Unknown provider: " and its name.
pub fn create_evaluator(config: &crate::config::LLMConfig) -> (r: Result<Provider, String>)
    ensures
        config.provider@ == "groq"@ ==> r == Ok::<Provider, String>(Provider::Groq),
        config.provider@ != "groq"@ ==> (r matches Err(m) && m@ == "Unknown provider: "@ + config.provider@),
{
    if crate::board::same_text(config.provider.as_str(), "groq") {
        Ok(Provider::Groq)
    } else {
        Err(concat("Unknown provider: ", config.provider.as_str()))
    }
}

} // verus!
