//! Flashcards and topics: identifiers, and fuzzy search over cards.

use vstd::prelude::*;

use crate::sorting::{is_stable_order, lemma_stable_order_unique, stable_order};
use crate::outside::{now_millis, valid_ms};
use crate::text::{blank, concat, trim_text};

verus! {

/// Length of card and topic identifiers.
pub const ID_LENGTH: usize = 6;

/// The characters identifiers are drawn from: `a-z`, `A-Z`, `0-9`, in that order.
pub open spec fn id_char(i: int) -> char {
    if i < 26 {
        ((97 + i) as u8) as char
    } else if i < 52 {
        ((65 + i - 26) as u8) as char
    } else {
        ((48 + i - 52) as u8) as char
    }
}

/// Whether `c` is an ASCII letter or digit.
pub open spec fn alphanumeric(c: char) -> bool {
    ('a' <= c <= 'z') || ('A' <= c <= 'Z') || ('0' <= c <= '9')
}

/// Calls `rand::thread_rng().gen_range(0..n)`: a random number below `n`.
#[verifier::external_body]
fn random_below(n: usize) -> (r: usize)
    requires
        n > 0,
    ensures
        r < n,
{
    rand::Rng::gen_range(&mut rand::thread_rng(), 0..n)
}

/// Calls `Iterator::collect::<String>` on the characters of `v`.
#[verifier::external_body]
fn chars_to_string(v: &Vec<char>) -> (r: String)
    ensures
        r@ == v@,
{
    v.iter().collect()
}

/// Character `i` of the identifier alphabet.
fn alphabet_char(i: usize) -> (c: char)
    requires
        i < 62,
    ensures
        c == id_char(i as int),
        alphanumeric(c),
{
    if i < 26 {
        ((97 + i) as u8) as char
    } else if i < 52 {
        ((65 + i - 26) as u8) as char
    } else {
        ((48 + i - 52) as u8) as char
    }
}

/// A random six-character identifier of letters and digits.
pub fn generate_card_id() -> (id: String)
    ensures
        id@.len() == ID_LENGTH,
        forall|i: int| 0 <= i < id@.len() ==> alphanumeric(#[trigger] id@[i]),
{
    let mut cs: Vec<char> = Vec::new();
    let mut k: usize = 0;
    while k < ID_LENGTH
        invariant
            k <= ID_LENGTH,
            cs@.len() == k,
            forall|i: int| 0 <= i < cs@.len() ==> alphanumeric(#[trigger] cs@[i]),
        decreases ID_LENGTH - k,
    {
        let idx = random_below(62);
        cs.push(alphabet_char(idx));
        k = k + 1;
    }
    chars_to_string(&cs)
}

/// A random six-character identifier of letters and digits for a topic.
pub fn generate_topic_id() -> (id: String)
    ensures
        id@.len() == ID_LENGTH,
        forall|i: int| 0 <= i < id@.len() ==> alphanumeric(#[trigger] id@[i]),
{
    generate_card_id()
}

/// A flashcard; its times are milliseconds since the Unix epoch (UTC).
pub struct Card {
    pub id: String,
    pub question: String,
    pub answer: String,
    pub created_at: i64,
    pub modified_at: i64,
}

impl Card {
    /// A new card with a fresh identifier, created and modified now.
    pub fn new(question: String, answer: String) -> (c: Card)
        ensures
            c.id@.len() == ID_LENGTH,
            forall|i: int| 0 <= i < c.id@.len() ==> alphanumeric(#[trigger] c.id@[i]),
            c.question == question,
            c.answer == answer,
            c.created_at == c.modified_at,
            valid_ms(c.created_at),
    {
        let now = now_millis();
        Card { id: generate_card_id(), question, answer, created_at: now, modified_at: now }
    }
}

/// A review topic: a list of keywords; its times are milliseconds since the
/// Unix epoch (UTC).
pub struct Topic {
    pub id: String,
    pub keywords: Vec<String>,
    pub created_at: i64,
    pub modified_at: i64,
}

impl Topic {
    /// A new topic with a fresh identifier, created and modified now.
    pub fn new(keywords: Vec<String>) -> (t: Topic)
        ensures
            t.id@.len() == ID_LENGTH,
            forall|i: int| 0 <= i < t.id@.len() ==> alphanumeric(#[trigger] t.id@[i]),
            t.keywords == keywords,
            t.created_at == t.modified_at,
            valid_ms(t.created_at),
    {
        let now = now_millis();
        Topic { id: generate_topic_id(), keywords, created_at: now, modified_at: now }
    }
}

/// A card that can be searched.
pub struct SearchableCard {
    pub id: String,
    pub question: String,
    pub answer: String,
    /// The text searched: question and answer separated by a rule.
    pub search_text: String,
}

/// The text a card is searched by.
pub open spec fn search_text_of(question: Seq<char>, answer: Seq<char>) -> Seq<char> {
    question + "\n\n---\n\n"@ + answer
}

impl SearchableCard {
    /// A card with the searched text put together from question and answer.
    pub fn new(id: String, question: String, answer: String) -> (card: SearchableCard)
        ensures
            card.id@ == id@,
            card.question@ == question@,
            card.answer@ == answer@,
            card.search_text@ == search_text_of(question@, answer@),
    {
        let head = concat(question.as_str(), "\n\n---\n\n");
        let search_text = concat(head.as_str(), answer.as_str());
        SearchableCard { id, question, answer, search_text }
    }

    /// A copy of the card.
    pub fn duplicate(&self) -> (c: SearchableCard)
        ensures
            c.id@ == self.id@,
            c.question@ == self.question@,
            c.answer@ == self.answer@,
            c.search_text@ == self.search_text@,
    {
        SearchableCard {
            id: self.id.clone(),
            question: self.question.clone(),
            answer: self.answer.clone(),
            search_text: self.search_text.clone(),
        }
    }
}

/// A search result with its score.
pub struct SearchResult {
    pub card: SearchableCard,
    pub score: u32,
}

/// The score `nucleo_matcher` gives `text` for the query `query` (case
/// ignored, smart normalisation), or `None` when it does not match.
pub uninterp spec fn fuzzy_score(query: Seq<char>, text: Seq<char>) -> Option<u32>;

/// Calls `nucleo_matcher::pattern::Pattern::parse` on `query` (case ignored,
/// smart normalisation) and `Pattern::score` on `text` with a matcher of the
/// default configuration. The result is named: the same query and text give
/// the same score.
#[verifier::external_body]
fn match_score(query: &str, text: &str) -> (r: Option<u32>)
    ensures
        r == fuzzy_score(query@, text@),
{
    let pattern = nucleo_matcher::pattern::Pattern::parse(
        query,
        nucleo_matcher::pattern::CaseMatching::Ignore,
        nucleo_matcher::pattern::Normalization::Smart,
    );
    let mut matcher = nucleo_matcher::Matcher::new(nucleo_matcher::Config::DEFAULT);
    let mut buf = Vec::new();
    pattern.score(nucleo_matcher::Utf32Str::new(text, &mut buf), &mut matcher)
}

/// Whether `res` shows card `card` with score `score`.
pub open spec fn shows(res: SearchResult, card: SearchableCard, score: u32) -> bool {
    &&& res.score == score
    &&& res.card.id@ == card.id@
    &&& res.card.question@ == card.question@
    &&& res.card.answer@ == card.answer@
    &&& res.card.search_text@ == card.search_text@
}

/// Fuzzy finder over a set of cards.
pub struct Finder {
    pub cards: Vec<SearchableCard>,
}

/// The key that sorts higher scores first.
pub open spec fn score_key(score: u32) -> u128 {
    (u32::MAX - score) as u128
}

/// The positions of the matching cards, in card order, with their scores.
pub open spec fn matches_of(texts: Seq<Seq<char>>, query: Seq<char>, k: int) -> Seq<(int, u32)>
    decreases k,
{
    if k <= 0 {
        Seq::empty()
    } else {
        let prev = matches_of(texts, query, k - 1);
        match fuzzy_score(query, texts[k - 1]) {
            Some(s) => prev.push((k - 1, s)),
            None => prev,
        }
    }
}

/// The results of a search: the matching cards' positions and scores,
/// best score first (equal scores in card order); every card with score 0
/// for a blank query.
pub open spec fn search_spec(texts: Seq<Seq<char>>, query: Seq<char>) -> Seq<(int, u32)> {
    if blank(query) {
        Seq::new(texts.len(), |i: int| (i, 0u32))
    } else {
        let m = matches_of(texts, query, texts.len() as int);
        let keys = Seq::new(m.len(), |i: int| score_key(m[i].1));
        let p = choose|p: Seq<usize>| is_stable_order(keys, p);
        Seq::new(m.len(), |i: int| m[p[i] as int])
    }
}

impl Finder {
    /// A finder over `cards`.
    pub fn from_cards(cards: Vec<SearchableCard>) -> (f: Finder)
        ensures
            f.cards == cards,
    {
        Finder { cards }
    }

    /// The searched texts of the cards.
    pub open spec fn texts(&self) -> Seq<Seq<char>> {
        Seq::new(self.cards@.len(), |i: int| self.cards@[i].search_text@)
    }

    /// `r` lists the results `search_spec` gives for `query`: each card shown
    /// with its score.
    pub open spec fn found(&self, query: Seq<char>, r: Seq<SearchResult>) -> bool {
        let s = search_spec(self.texts(), query);
        &&& r.len() == s.len()
        &&& forall|i: int|
            0 <= i < r.len() ==> 0 <= s[i].0 < self.cards@.len() && shows(#[trigger] r[i], self.cards@[s[i].0], s[i].1)
    }

    /// Cards matching `query`, best first; all cards (score 0) for a blank query.
    pub fn search(&self, query: &str) -> (r: Vec<SearchResult>)
        ensures
            self.found(query@, r@),
            forall|x: int, y: int| 0 <= x < y < r@.len() ==> (#[trigger] r@[x]).score >= (#[trigger] r@[y]).score,
    {
        let trimmed = trim_text(query);
        let n = self.cards.len();
        let mut r: Vec<SearchResult> = Vec::new();
        if trimmed.as_str().unicode_len() == 0 {
            let mut k: usize = 0;
            while k < n
                invariant
                    k <= n,
                    n == self.cards@.len(),
                    blank(query@),
                    r@.len() == k,
                    forall|i: int| 0 <= i < k ==> shows(#[trigger] r@[i], self.cards@[i], 0),
                decreases n - k,
            {
                r.push(SearchResult { card: self.cards[k].duplicate(), score: 0 });
                k = k + 1;
            }
            return r;
        }
        let ghost texts = self.texts();
        let mut pos: Vec<usize> = Vec::new();
        let mut scores: Vec<u32> = Vec::new();
        let mut k: usize = 0;
        while k < n
            invariant
                k <= n,
                n == self.cards@.len(),
                texts == self.texts(),
                pos@.len() == scores@.len(),
                pos@.len() == matches_of(texts, query@, k as int).len(),
                forall|i: int|
                    0 <= i < pos@.len() ==> matches_of(texts, query@, k as int)[i] == (
                        #[trigger] pos@[i] as int,
                        scores@[i],
                    ) && pos@[i] < k,
            decreases n - k,
        {
            match match_score(query, self.cards[k].search_text.as_str()) {
                Some(s) => {
                    pos.push(k);
                    scores.push(s);
                },
                None => {},
            }
            k = k + 1;
        }
        let ghost m = matches_of(texts, query@, n as int);
        proof {
            assert forall|x: int| 0 <= x < m.len() implies #[trigger] m[x].1 == scores@[x] by {
                assert(m[x] == (pos@[x] as int, scores@[x]));
            }
        }
        let mut keys: Vec<u128> = Vec::new();
        let mut j: usize = 0;
        while j < scores.len()
            invariant
                j <= scores@.len(),
                scores@.len() == m.len(),
                forall|x: int| 0 <= x < m.len() ==> #[trigger] m[x].1 == scores@[x],
                keys@.len() == j,
                forall|i: int| 0 <= i < j ==> #[trigger] keys@[i] == score_key(scores@[i]),
            decreases scores@.len() - j,
        {
            keys.push((u32::MAX - scores[j]) as u128);
            j = j + 1;
        }
        let ghost kv = Seq::new(m.len(), |i: int| score_key(m[i].1));
        proof {
            assert(keys@ =~= kv);
        }
        let p = stable_order(&keys);
        proof {
            let q = choose|q: Seq<usize>| is_stable_order(kv, q);
            lemma_stable_order_unique(kv, p@, q);
        }
        proof {
            assert forall|x: int| 0 <= x < p@.len() implies 0 <= #[trigger] m[p@[x] as int].0 < self.cards@.len() by {
                assert(m[p@[x] as int] == (pos@[p@[x] as int] as int, scores@[p@[x] as int]));
            }
        }
        let mut i: usize = 0;
        while i < p.len()
            invariant
                i <= p@.len(),
                is_stable_order(keys@, p@),
                keys@.len() == pos@.len(),
                pos@.len() == scores@.len(),
                pos@.len() == m.len(),
                n == self.cards@.len(),
                forall|x: int| 0 <= x < pos@.len() ==> m[x] == (#[trigger] pos@[x] as int, scores@[x]) && pos@[x] < n,
                r@.len() == i,
                forall|x: int| 0 <= x < p@.len() ==> 0 <= #[trigger] m[p@[x] as int].0 < self.cards@.len(),
                forall|x: int|
                    0 <= x < i ==> shows(#[trigger] r@[x], self.cards@[m[p@[x] as int].0], m[p@[x] as int].1),
            decreases p@.len() - i,
        {
            assert(p@[i as int] < keys@.len());
            let at = p[i];
            let c = pos[at];
            proof {
                assert(m[p@[i as int] as int] == (pos@[at as int] as int, scores@[at as int]));
            }
            let ghost before = r@;
            let card = self.cards[c].duplicate();
            r.push(SearchResult { card, score: scores[at] });
            proof {
                assert(shows(r@[i as int], self.cards@[m[p@[i as int] as int].0], m[p@[i as int] as int].1));
                assert forall|x: int| 0 <= x < i + 1 implies shows(
                    #[trigger] r@[x],
                    self.cards@[m[p@[x] as int].0],
                    m[p@[x] as int].1,
                ) by {
                    if x < i {
                        assert(r@[x] == before[x]);
                    }
                }
            }
            i = i + 1;
        }
        proof {
            assert forall|x: int, y: int| 0 <= x < y < r@.len() implies (#[trigger] r@[x]).score >= (
            #[trigger] r@[y]).score by {
                assert(crate::sorting::key_before(keys@, p@[x] as int, p@[y] as int));
                assert(m[p@[x] as int] == (pos@[p@[x] as int] as int, scores@[p@[x] as int]));
                assert(m[p@[y] as int] == (pos@[p@[y] as int] as int, scores@[p@[y] as int]));
                assert(keys@[p@[x] as int] == score_key(scores@[p@[x] as int]));
                assert(keys@[p@[y] as int] == score_key(scores@[p@[y] as int]));
            }
        }
        r
    }

    /// The first card with identifier `id`.
    pub fn get_card(&self, id: &str) -> (r: Option<&SearchableCard>)
        ensures
            match r {
                Some(c) => exists|i: int|
                    0 <= i < self.cards@.len() && self.cards@[i] == *c && c.id@ == id@ && forall|j: int|
                        0 <= j < i ==> self.cards@[j].id@ != id@,
                None => forall|j: int| 0 <= j < self.cards@.len() ==> self.cards@[j].id@ != id@,
            },
    {
        let mut k: usize = 0;
        while k < self.cards.len()
            invariant
                k <= self.cards@.len(),
                forall|j: int| 0 <= j < k ==> self.cards@[j].id@ != id@,
            decreases self.cards@.len() - k,
        {
            if crate::board::same_text(self.cards[k].id.as_str(), id) {
                return Some(&self.cards[k]);
            }
            k = k + 1;
        }
        None
    }
}

} // verus!
