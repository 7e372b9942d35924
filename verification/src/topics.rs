//! Which due topics a topic review session takes up.

use vstd::prelude::*;

use crate::board::same_text;
use crate::text::concat;

verus! {

/// The questions a topic gets per day.
pub const QUESTIONS_PER_DAY: usize = 3;

/// The keywords `ws` joined with commas.
pub open spec fn joined(ws: Seq<Seq<char>>) -> Seq<char>
    decreases ws.len(),
{
    if ws.len() == 0 {
        Seq::empty()
    } else if ws.len() == 1 {
        ws[0]
    } else {
        joined(ws.drop_last()) + ","@ + ws.last()
    }
}

/// The texts of `v`.
pub open spec fn texts(v: Seq<String>) -> Seq<Seq<char>> {
    v.map_values(|s: String| s@)
}

/// The keyword keys of the first `k` due topics.
pub open spec fn keys_upto(due: Seq<Vec<String>>, k: int) -> Seq<Seq<char>> {
    Seq::new(k as nat, |i: int| joined(texts(due[i]@)))
}

/// The topics among the first `k` due ones that the session takes up: a
/// topic whose keywords (joined with commas) came before is left out, and so
/// is one already answered `QUESTIONS_PER_DAY` times today.
pub open spec fn topics_upto(due: Seq<Vec<String>>, answered: Seq<usize>, k: int) -> Seq<usize>
    decreases k,
{
    if k <= 0 {
        Seq::empty()
    } else {
        let prev = topics_upto(due, answered, k - 1);
        let i = k - 1;
        if !keys_upto(due, i).contains(joined(texts(due[i]@))) && answered[i] < QUESTIONS_PER_DAY {
            prev.push(i as usize)
        } else {
            prev
        }
    }
}

/// The keywords `ws` joined with commas.
fn join_keywords(ws: &Vec<String>) -> (r: String)
    ensures
        r@ == joined(texts(ws@)),
{
    let mut r = String::new();
    let mut k: usize = 0;
    while k < ws.len()
        invariant
            k <= ws@.len(),
            r@ == joined(texts(ws@).take(k as int)),
        decreases ws@.len() - k,
    {
        let ghost t = texts(ws@);
        proof {
            assert(t.take(k + 1).drop_last() =~= t.take(k as int));
            assert(t.take(k + 1).last() == ws@[k as int]@);
        }
        if k == 0 {
            r = concat("", ws[k].as_str());
            proof {
                reveal_strlit("");
                assert(t.take(1) =~= seq![ws@[0]@]);
                assert(r@ =~= ws@[0]@);
            }
        } else {
            let with_comma = concat(r.as_str(), ",");
            r = concat(with_comma.as_str(), ws[k].as_str());
        }
        k = k + 1;
    }
    proof {
        assert(texts(ws@).take(ws@.len() as int) =~= texts(ws@));
    }
    r
}

/// The due topics (each given by its keywords) that a review session takes
/// up, by position: the first of each keyword set, when it was answered fewer
/// than `QUESTIONS_PER_DAY` times today (`answered`, one count per topic).
pub fn topics_to_review(due: &Vec<Vec<String>>, answered: &Vec<usize>) -> (r: Vec<usize>)
    requires
        answered@.len() == due@.len(),
    ensures
        r@ == topics_upto(due@, answered@, due@.len() as int),
{
    let mut seen: Vec<String> = Vec::new();
    let mut r: Vec<usize> = Vec::new();
    let mut k: usize = 0;
    while k < due.len()
        invariant
            k <= due@.len(),
            answered@.len() == due@.len(),
            texts(seen@) == keys_upto(due@, k as int),
            r@ == topics_upto(due@, answered@, k as int),
        decreases due@.len() - k,
    {
        let key = join_keywords(&due[k]);
        let mut dup = false;
        let mut j: usize = 0;
        while j < seen.len()
            invariant
                j <= seen@.len(),
                dup == texts(seen@).take(j as int).contains(key@),
            decreases seen@.len() - j,
        {
            proof {
                assert(texts(seen@).take(j + 1) =~= texts(seen@).take(j as int).push(seen@[j as int]@));
            }
            if same_text(seen[j].as_str(), key.as_str()) {
                dup = true;
            }
            proof {
                let t = texts(seen@).take(j + 1);
                if dup {
                    if seen@[j as int]@ == key@ {
                        assert(t[j as int] == key@);
                    } else {
                        let w = choose|w: int| 0 <= w < j && texts(seen@).take(j as int)[w] == key@;
                        assert(t[w] == key@);
                    }
                } else {
                    assert forall|w: int| 0 <= w < t.len() implies t[w] != key@ by {
                        if w < j {
                            assert(t[w] == texts(seen@).take(j as int)[w]);
                        }
                    }
                }
            }
            j = j + 1;
        }
        proof {
            assert(texts(seen@).take(seen@.len() as int) =~= texts(seen@));
        }
        if !dup && answered[k] < QUESTIONS_PER_DAY {
            r.push(k);
        }
        let ghost before = texts(seen@);
        seen.push(key);
        proof {
            assert(texts(seen@) =~= before.push(seen@[k as int]@));
            assert(keys_upto(due@, k + 1) =~= keys_upto(due@, k as int).push(joined(texts(due@[k as int]@))));
        }
        k = k + 1;
    }
    r
}

} // verus!
