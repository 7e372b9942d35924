//! The keywords of an answer: its lower-case words without punctuation,
//! leaving out common English stopwords, each once.

use vstd::prelude::*;

use crate::board::same_text;
use crate::review::push_char;
use crate::search::{lowercase, lowercase_of};
use crate::text::is_white;

verus! {

/// What `char::is_alphanumeric` gives for `c`.
pub uninterp spec fn alnum_of(c: char) -> bool;

/// Calls `char::is_alphanumeric`: whether `c` is a letter or a digit, by
/// Unicode's rules; for an ASCII character, one of `A`-`Z`, `a`-`z`, `0`-`9`.
#[verifier::external_body]
fn is_alnum(c: char) -> (r: bool)
    ensures
        r == alnum_of(c),
        (c as u32) < 128 ==> r == crate::cards::alphanumeric(c),
{
    c.is_alphanumeric()
}

/// The common English words that are never keywords.
pub open spec fn stopword_list() -> Seq<Seq<char>> {
    seq![
        "a"@, "an"@, "and"@, "are"@, "as"@, "at"@, "be"@, "by"@, "for"@, "from"@, "has"@, "he"@,
        "in"@, "is"@, "it"@, "its"@, "of"@, "on"@, "that"@, "the"@, "to"@, "was"@, "will"@, "with"@,
        "i"@, "you"@, "we"@, "they"@, "them"@, "this"@, "these"@, "those"@, "can"@, "should"@,
        "would"@, "could"@, "may"@, "might"@, "must"@, "shall"@, "or"@, "but"@, "not"@, "no"@,
        "yes"@, "have"@, "had"@, "do"@, "does"@, "did"@, "what"@, "where"@, "when"@, "why"@, "how"@,
    ]
}

/// The stopwords.
fn stopwords() -> (r: Vec<&'static str>)
    ensures
        r@.len() == stopword_list().len(),
        forall|i: int| 0 <= i < r@.len() ==> (#[trigger] r@[i])@ == stopword_list()[i],
{
    vec![
        "a", "an", "and", "are", "as", "at", "be", "by", "for", "from", "has", "he",
        "in", "is", "it", "its", "of", "on", "that", "the", "to", "was", "will", "with",
        "i", "you", "we", "they", "them", "this", "these", "those", "can", "should",
        "would", "could", "may", "might", "must", "shall", "or", "but", "not", "no",
        "yes", "have", "had", "do", "does", "did", "what", "where", "when", "why", "how",
    ]
}

/// The words of `s[..k]` so far: those ended by whitespace, and the one being
/// read.
pub open spec fn words_state(s: Seq<char>, k: int) -> (Seq<Seq<char>>, Seq<char>)
    decreases k,
{
    if k <= 0 {
        (Seq::empty(), Seq::empty())
    } else {
        let (done, cur) = words_state(s, k - 1);
        if is_white(s[k - 1]) {
            if cur.len() > 0 {
                (done.push(cur), Seq::empty())
            } else {
                (done, cur)
            }
        } else {
            (done, cur.push(s[k - 1]))
        }
    }
}

/// The words of `s`: its longest runs of characters other than whitespace,
/// in order (what `str::split_whitespace` gives).
pub open spec fn words_of(s: Seq<char>) -> Seq<Seq<char>> {
    let (done, cur) = words_state(s, s.len() as int);
    if cur.len() > 0 {
        done.push(cur)
    } else {
        done
    }
}

/// The letters and digits of `w[..k]`, in order.
pub open spec fn alnum_part(w: Seq<char>, k: int) -> Seq<char>
    decreases k,
{
    if k <= 0 {
        Seq::empty()
    } else if alnum_of(w[k - 1]) {
        alnum_part(w, k - 1).push(w[k - 1])
    } else {
        alnum_part(w, k - 1)
    }
}

/// The keywords of the words `ws[..k]`: each word's letters and digits,
/// when there are some and they are no stopword, each kept once, first
/// occurrence first.
pub open spec fn keywords_upto(ws: Seq<Seq<char>>, k: int) -> Seq<Seq<char>>
    decreases k,
{
    if k <= 0 {
        Seq::empty()
    } else {
        let prev = keywords_upto(ws, k - 1);
        let w = alnum_part(ws[k - 1], ws[k - 1].len() as int);
        if w.len() > 0 && !stopword_list().contains(w) && !prev.contains(w) {
            prev.push(w)
        } else {
            prev
        }
    }
}

/// The keywords of `text`.
pub open spec fn keywords_of(text: Seq<char>) -> Seq<Seq<char>> {
    let ws = words_of(lowercase_of(text));
    keywords_upto(ws, ws.len() as int)
}

/// The words of `s`.
fn split_words(s: &str) -> (r: Vec<String>)
    ensures
        r@.map_values(|w: String| w@) == words_of(s@),
{
    let n = s.unicode_len();
    let mut done: Vec<String> = Vec::new();
    let mut cur = String::new();
    let mut k: usize = 0;
    while k < n
        invariant
            n == s@.len(),
            k <= n,
            (done@.map_values(|w: String| w@), cur@) == words_state(s@, k as int),
        decreases n - k,
    {
        let c = s.get_char(k);
        let ghost before = done@.map_values(|w: String| w@);
        if crate::text::white_char(c) {
            if cur.unicode_len() > 0 {
                let w = cur;
                cur = String::new();
                done.push(w);
                proof {
                    assert(done@.map_values(|w: String| w@) =~= before.push(done@[done@.len() - 1]@));
                }
            }
        } else {
            push_char(&mut cur, c);
        }
        k = k + 1;
    }
    if cur.unicode_len() > 0 {
        let ghost before = done@.map_values(|w: String| w@);
        done.push(cur);
        proof {
            assert(done@.map_values(|w: String| w@) =~= before.push(done@[done@.len() - 1]@));
        }
    }
    done
}

/// The letters and digits of `w`.
fn alnum_chars(w: &str) -> (r: String)
    ensures
        r@ == alnum_part(w@, w@.len() as int),
{
    let n = w.unicode_len();
    let mut r = String::new();
    let mut k: usize = 0;
    while k < n
        invariant
            n == w@.len(),
            k <= n,
            r@ == alnum_part(w@, k as int),
        decreases n - k,
    {
        let c = w.get_char(k);
        if is_alnum(c) {
            push_char(&mut r, c);
        }
        k = k + 1;
    }
    r
}

/// Whether `w` is one of `list`.
fn among(list: &Vec<String>, w: &str) -> (r: bool)
    ensures
        r == list@.map_values(|x: String| x@).contains(w@),
{
    let ghost m = list@.map_values(|x: String| x@);
    let mut i: usize = 0;
    while i < list.len()
        invariant
            i <= list@.len(),
            m == list@.map_values(|x: String| x@),
            forall|j: int| 0 <= j < i ==> m[j] != w@,
        decreases list@.len() - i,
    {
        if same_text(list[i].as_str(), w) {
            proof {
                assert(m[i as int] == w@);
            }
            return true;
        }
        i = i + 1;
    }
    false
}

/// Whether `w` is a stopword.
fn is_stopword(w: &str) -> (r: bool)
    ensures
        r == stopword_list().contains(w@),
{
    let stops = stopwords();
    let mut i: usize = 0;
    while i < stops.len()
        invariant
            i <= stops@.len(),
            stops@.len() == stopword_list().len(),
            forall|j: int| 0 <= j < stops@.len() ==> (#[trigger] stops@[j])@ == stopword_list()[j],
            forall|j: int| 0 <= j < i ==> stopword_list()[j] != w@,
        decreases stops@.len() - i,
    {
        if same_text(stops[i], w) {
            proof {
                assert(stopword_list()[i as int] == w@);
            }
            return true;
        }
        i = i + 1;
    }
    false
}

/// The keywords of `text`: its words in lower case, each stripped of what is
/// not a letter or a digit, without the empty ones and the stopwords, each
/// kept once (first occurrence first).
pub fn extract_keywords(text: &str) -> (r: Vec<String>)
    ensures
        r@.map_values(|w: String| w@) == keywords_of(text@),
{
    let low = lowercase(text);
    let words = split_words(low.as_str());
    let ghost ws = words@.map_values(|w: String| w@);
    let mut r: Vec<String> = Vec::new();
    let mut k: usize = 0;
    while k < words.len()
        invariant
            k <= words@.len(),
            ws == words@.map_values(|w: String| w@),
            ws == words_of(low@),
            r@.map_values(|w: String| w@) == keywords_upto(ws, k as int),
        decreases words@.len() - k,
    {
        let w = alnum_chars(words[k].as_str());
        proof {
            assert(ws[k as int] == words@[k as int]@);
        }
        let ghost before = r@.map_values(|x: String| x@);
        if w.unicode_len() > 0 && !is_stopword(w.as_str()) && !among(&r, w.as_str()) {
            r.push(w);
            proof {
                assert(r@.map_values(|x: String| x@) =~= before.push(r@[r@.len() - 1]@));
            }
        }
        k = k + 1;
    }
    r
}

} // verus!
