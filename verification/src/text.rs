//! Whitespace trimming of titles and names, as `str::trim` does it,
//! numbers in decimal, and the texts of the library's messages.

use vstd::prelude::*;

verus! {

/// The characters with the Unicode `White_Space` property.
pub open spec fn is_white(c: char) -> bool {
    let u = c as u32;
    ||| 0x9 <= u <= 0xD
    ||| u == 0x20
    ||| u == 0x85
    ||| u == 0xA0
    ||| u == 0x1680
    ||| 0x2000 <= u <= 0x200A
    ||| u == 0x2028
    ||| u == 0x2029
    ||| u == 0x202F
    ||| u == 0x205F
    ||| u == 0x3000
}

/// Number of white characters at the start of `s`.
pub open spec fn lead_white(s: Seq<char>, i: int) -> int
    decreases s.len() - i,
    when 0 <= i
{
    if i < s.len() && is_white(s[i]) {
        lead_white(s, i + 1)
    } else {
        i
    }
}

/// End of `s[..j]` once the white characters at its end are dropped.
pub open spec fn trail_white(s: Seq<char>, lo: int, j: int) -> int
    decreases j - lo,
{
    if j > lo && is_white(s[j - 1]) {
        trail_white(s, lo, j - 1)
    } else {
        j
    }
}

/// `s` without the white characters at either end.
pub open spec fn trimmed(s: Seq<char>) -> Seq<char> {
    let lo = lead_white(s, 0);
    s.subrange(lo, trail_white(s, lo, s.len() as int))
}

/// Whether `c` has the Unicode `White_Space` property, as
/// `char::is_whitespace` answers.
pub(crate) fn white_char(c: char) -> (r: bool)
    ensures
        r == is_white(c),
{
    let u = c as u32;
    (0x9 <= u && u <= 0xD) || u == 0x20 || u == 0x85 || u == 0xA0 || u == 0x1680 || (0x2000 <= u && u
        <= 0x200A) || u == 0x2028 || u == 0x2029 || u == 0x202F || u == 0x205F || u == 0x3000
}

/// `s` without leading and trailing whitespace.
pub fn trim_text(s: &str) -> (r: String)
    ensures
        r@ == trimmed(s@),
{
    let n = s.unicode_len();
    let mut lo: usize = 0;
    while lo < n && white_char(s.get_char(lo))
        invariant
            n == s@.len(),
            lo <= n,
            lead_white(s@, 0) == lead_white(s@, lo as int),
        decreases n - lo,
    {
        lo = lo + 1;
    }
    let mut hi: usize = n;
    while hi > lo && white_char(s.get_char(hi - 1))
        invariant
            n == s@.len(),
            lo <= hi <= n,
            lo == lead_white(s@, 0),
            trail_white(s@, lo as int, n as int) == trail_white(s@, lo as int, hi as int),
        decreases hi - lo,
    {
        hi = hi - 1;
    }
    s.substring_char(lo, hi).to_owned()
}

/// Whether `s` is empty once trimmed.
pub open spec fn blank(s: Seq<char>) -> bool {
    trimmed(s).len() == 0
}

/// The character of decimal digit `d`.
pub open spec fn digit_char(d: nat) -> char {
    if d == 0 { '0' }
    else if d == 1 { '1' }
    else if d == 2 { '2' }
    else if d == 3 { '3' }
    else if d == 4 { '4' }
    else if d == 5 { '5' }
    else if d == 6 { '6' }
    else if d == 7 { '7' }
    else if d == 8 { '8' }
    else { '9' }
}

/// `n` written in decimal, without leading zeros.
pub open spec fn decimal(n: nat) -> Seq<char>
    decreases n,
{
    if n < 10 {
        seq![digit_char(n)]
    } else {
        decimal(n / 10).push(digit_char(n % 10))
    }
}

/// The text of decimal digit `d`.
fn digit_text(d: u64) -> (r: &'static str)
    requires
        d < 10,
    ensures
        r@ == seq![digit_char(d as nat)],
{
    proof {
        reveal_strlit("0");
        reveal_strlit("1");
        reveal_strlit("2");
        reveal_strlit("3");
        reveal_strlit("4");
        reveal_strlit("5");
        reveal_strlit("6");
        reveal_strlit("7");
        reveal_strlit("8");
        reveal_strlit("9");
    }
    if d == 0 {
        "0"
    } else if d == 1 {
        "1"
    } else if d == 2 {
        "2"
    } else if d == 3 {
        "3"
    } else if d == 4 {
        "4"
    } else if d == 5 {
        "5"
    } else if d == 6 {
        "6"
    } else if d == 7 {
        "7"
    } else if d == 8 {
        "8"
    } else {
        "9"
    }
}

/// `n` written in decimal.
pub(crate) fn decimal_text(n: u64) -> (r: String)
    ensures
        r@ == decimal(n as nat),
    decreases n,
{
    if n < 10 {
        digit_text(n).to_owned()
    } else {
        let mut r = decimal_text(n / 10);
        r.append(digit_text(n % 10));
        proof {
            assert(decimal(n as nat) == decimal((n / 10) as nat).push(digit_char((n % 10) as nat)));
            assert(r@ =~= decimal(n as nat));
        }
        r
    }
}

/// The prefix, a space and `n` in decimal.
pub(crate) fn numbered(prefix: &str, n: usize) -> (r: String)
    ensures
        r@ == prefix@ + seq![' '] + decimal(n as nat),
{
    proof {
        reveal_strlit(" ");
    }
    let mut r = prefix.to_owned();
    r.append(" ");
    let d = decimal_text(n as u64);
    r.append(d.as_str());
    r
}

/// The message after tasks were created in bulk.
pub(crate) fn created_message(n: usize) -> (r: String)
    ensures
        r@ == "Created "@ + decimal(n as nat) + " tasks"@,
{
    let mut r = "Created ".to_owned();
    let d = decimal_text(n as u64);
    r.append(d.as_str());
    r.append(" tasks");
    r
}

/// The numbers of `s` in decimal, joined by `sep`.
pub open spec fn joined_decimals(s: Seq<usize>, sep: Seq<char>) -> Seq<char>
    decreases s.len(),
{
    if s.len() == 0 {
        Seq::empty()
    } else if s.len() == 1 {
        decimal(s[0] as nat)
    } else {
        joined_decimals(s.drop_last(), sep) + sep + decimal(s.last() as nat)
    }
}

/// The numbers of `v` in decimal, joined by `sep`.
pub(crate) fn join_decimals(v: &Vec<usize>, sep: &str) -> (r: String)
    ensures
        r@ == joined_decimals(v@, sep@),
{
    let mut r = String::new();
    let mut k: usize = 0;
    while k < v.len()
        invariant
            k <= v@.len(),
            r@ == joined_decimals(v@.take(k as int), sep@),
        decreases v@.len() - k,
    {
        let d = decimal_text(v[k] as u64);
        proof {
            assert(v@.take(k + 1).drop_last() =~= v@.take(k as int));
            assert(v@.take(k + 1).last() == v@[k as int]);
        }
        if k > 0 {
            r.append(sep);
        } else {
            assert(r@ =~= Seq::<char>::empty());
        }
        r.append(d.as_str());
        proof {
            if k == 0 {
                assert(r@ =~= decimal(v@[0] as nat));
            }
        }
        k = k + 1;
    }
    proof {
        assert(v@.take(v@.len() as int) =~= v@);
    }
    r
}

/// The question asked before clearing the highlights of the flags `nums`.
pub(crate) fn flag_clear_prompt(nums: &str) -> (r: String)
    ensures
        r@ == "Clear flag "@ + nums@ + " highlights? (Enter to confirm, Esc to cancel)"@,
{
    let mut r = "Clear flag ".to_owned();
    r.append(nums);
    r.append(" highlights? (Enter to confirm, Esc to cancel)");
    r
}

/// The message after tasks were deleted.
pub(crate) fn deleted_message(n: usize) -> (r: String)
    ensures
        r@ == "Deleted "@ + decimal(n as nat) + " tasks"@,
{
    let mut r = "Deleted ".to_owned();
    let d = decimal_text(n as u64);
    r.append(d.as_str());
    r.append(" tasks");
    r
}

/// The question asked before archiving the Done tasks of `label`.
pub(crate) fn archive_prompt(label: &str) -> (r: String)
    ensures
        r@ == "Archive Done tasks in "@ + label@ + "? (Enter to confirm, Esc to cancel)"@,
{
    let mut r = "Archive Done tasks in ".to_owned();
    r.append(label);
    r.append("? (Enter to confirm, Esc to cancel)");
    r
}

/// The message after `n` tasks were archived (`suffix` makes the plural).
pub(crate) fn archived_message(n: usize, suffix: &str) -> (r: String)
    ensures
        r@ == "Archived "@ + decimal(n as nat) + " task"@ + suffix@,
{
    let mut r = "Archived ".to_owned();
    let d = decimal_text(n as u64);
    r.append(d.as_str());
    r.append(" task");
    r.append(suffix);
    r
}

/// A signed number in decimal, with a minus sign when negative.
pub open spec fn int_decimal(n: int) -> Seq<char> {
    if n < 0 {
        seq!['-'] + decimal((-n) as nat)
    } else {
        decimal(n as nat)
    }
}

/// `n` in decimal, with a minus sign when negative.
pub(crate) fn int_text(n: i64) -> (r: String)
    ensures
        r@ == int_decimal(n as int),
{
    if n < 0 {
        proof {
            reveal_strlit("-");
        }
        let wide: i128 = n as i128;
        let m: u64 = (-wide) as u64;
        let mut r = "-".to_owned();
        let d = decimal_text(m);
        r.append(d.as_str());
        r
    } else {
        decimal_text(n as u64)
    }
}

/// The two texts one after the other.
pub(crate) fn concat(a: &str, b: &str) -> (r: String)
    ensures
        r@ == a@ + b@,
{
    let mut r = a.to_owned();
    r.append(b);
    r
}

} // verus!
