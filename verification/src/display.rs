//! What the screens compute before they draw: durations and ages as text,
//! scrolling, wrapping, truncation, calendar months, and completion figures.

use vstd::prelude::*;

use crate::kanban::{done_time, last_done_upto};
use crate::task::{Status, Task, TaskView, secs_between, views};
use crate::sorting::is_stable_order;
use crate::text::{concat, int_decimal, int_text};

verus! {

/// A positive number of seconds as the done list shows it: the largest
/// unit, and the next one when it is not zero; a dash for none.
pub open spec fn duration_text(secs: int) -> Seq<char> {
    if secs <= 0 {
        "\u{2014}"@
    } else if secs < 60 {
        int_decimal(secs) + "s"@
    } else if secs < 3600 {
        int_decimal(secs / 60) + "m"@
    } else if secs < 86400 {
        let h = secs / 3600;
        let m = (secs % 3600) / 60;
        if m == 0 {
            int_decimal(h) + "h"@
        } else {
            int_decimal(h) + "h"@ + " "@ + int_decimal(m) + "m"@
        }
    } else {
        let d = secs / 86400;
        let h = (secs % 86400) / 3600;
        if h == 0 {
            int_decimal(d) + "d"@
        } else {
            int_decimal(d) + "d"@ + " "@ + int_decimal(h) + "h"@
        }
    }
}

/// `n` followed by `unit`.
fn with_unit(n: i64, unit: &str) -> (r: String)
    ensures
        r@ == int_decimal(n as int) + unit@,
{
    let t = int_text(n);
    concat(t.as_str(), unit)
}

/// `a` with unit `ua`, a space, and `b` with unit `ub`.
fn two_units(a: i64, ua: &str, b: i64, ub: &str) -> (r: String)
    ensures
        r@ == int_decimal(a as int) + ua@ + " "@ + int_decimal(b as int) + ub@,
{
    let first = with_unit(a, ua);
    let second = with_unit(b, ub);
    let spaced = concat(first.as_str(), " ");
    let r = concat(spaced.as_str(), second.as_str());
    proof {
        assert(r@ =~= int_decimal(a as int) + ua@ + " "@ + int_decimal(b as int) + ub@);
    }
    r
}

/// A number of seconds as text: "45s", "3m", "2h 5m", "1d 4h"; a dash when
/// not positive.
pub fn format_duration(secs: i64) -> (r: String)
    ensures
        r@ == duration_text(secs as int),
{
    if secs <= 0 {
        return "\u{2014}".to_owned();
    }
    if secs < 60 {
        return with_unit(secs, "s");
    }
    if secs < 3600 {
        return with_unit(secs / 60, "m");
    }
    if secs < 86400 {
        let h = secs / 3600;
        let m = (secs % 3600) / 60;
        return if m == 0 {
            with_unit(h, "h")
        } else {
            two_units(h, "h", m, "m")
        };
    }
    let d = secs / 86400;
    let h = (secs % 86400) / 3600;
    if h == 0 {
        with_unit(d, "d")
    } else {
        two_units(d, "d", h, "h")
    }
}

/// How long ago something was, as text, for ages under a week: "just now",
/// "5m ago", "3h ago", "2d ago"; `None` from a week on.
pub open spec fn relative_text(secs: int) -> Option<Seq<char>> {
    if secs < 60 {
        Some("just now"@)
    } else if secs < 3600 {
        Some(int_decimal(secs / 60) + "m ago"@)
    } else if secs < 86400 {
        Some(int_decimal(secs / 3600) + "h ago"@)
    } else if secs < 7 * 86400 {
        Some(int_decimal(secs / 86400) + "d ago"@)
    } else {
        None
    }
}

/// How long ago something was, `secs` seconds back, as text; `None` from a
/// week on, where a date is shown instead.
pub fn format_relative_secs(secs: i64) -> (r: Option<String>)
    ensures
        match r {
            Some(t) => relative_text(secs as int) == Some(t@),
            None => relative_text(secs as int) is None,
        },
{
    if secs < 60 {
        return Some("just now".to_owned());
    }
    if secs < 3600 {
        return Some(with_unit(secs / 60, "m ago"));
    }
    if secs < 86400 {
        return Some(with_unit(secs / 3600, "h ago"));
    }
    if secs < 7 * 86400 {
        return Some(with_unit(secs / 86400, "d ago"));
    }
    None
}

/// The first scroll offset that keeps the cursor three rows clear of the
/// top and bottom of a window `height` rows tall, starting from `current`.
pub open spec fn browser_scroll(cursor: int, current: int, height: int) -> int {
    if height == 0 {
        0
    } else {
        let lo = if cursor + 4 - height > 0 { cursor + 4 - height } else { 0 };
        let hi = if cursor - 3 > 0 { cursor - 3 } else { 0 };
        if lo > hi {
            lo
        } else if current < lo {
            lo
        } else if current > hi {
            hi
        } else {
            current
        }
    }
}

/// Scroll offset of the snapshot browser for the cursor at `cursor`.
pub fn compute_browser_scroll(cursor: usize, current: usize, height: usize) -> (r: usize)
    requires
        cursor + 4 <= usize::MAX,
    ensures
        r as int == browser_scroll(cursor as int, current as int, height as int),
{
    if height == 0 {
        return 0;
    }
    let min_scroll = (cursor + 3 + 1).saturating_sub(height);
    let max_scroll = cursor.saturating_sub(3);
    if min_scroll > max_scroll {
        min_scroll
    } else if current < min_scroll {
        min_scroll
    } else if current > max_scroll {
        max_scroll
    } else {
        current
    }
}

/// Rows a card needs: one, plus one per `width` characters beyond the first
/// row, as a 16-bit count.
pub open spec fn wrapped_rows(prefix: int, content: int, width: int) -> int {
    if width == 0 {
        1
    } else if prefix + content <= width {
        1
    } else {
        (1 + (prefix + content - width + width - 1) / width) % 65536
    }
}

/// Rows needed to show `prefix_chars + content_chars` characters in
/// `width` columns.
pub fn wrap_height(prefix_chars: usize, content_chars: usize, width: u16) -> (r: u16)
    requires
        prefix_chars + content_chars + width <= usize::MAX,
    ensures
        r as int == wrapped_rows(prefix_chars as int, content_chars as int, width as int),
{
    if width == 0 {
        return 1;
    }
    let w = width as usize;
    let total = prefix_chars + content_chars;
    if total <= w {
        return 1;
    }
    let overflow = total - w;
    let rows = 1 + (overflow + w - 1) / w;
    proof {
        assert(rows <= usize::MAX);
    }
    (rows % 65536) as u16
}

/// The first `max_chars` characters of `s`.
pub fn truncate_to(s: &str, max_chars: usize) -> (r: String)
    ensures
        r@ == (if s@.len() <= max_chars { s@ } else { s@.take(max_chars as int) }),
{
    let n = s.unicode_len();
    if n <= max_chars {
        s.to_owned()
    } else {
        let t = s.substring_char(0, max_chars).to_owned();
        proof {
            assert(t@ =~= s@.take(max_chars as int));
        }
        t
    }
}

/// English name of month `month` (1 to 12); "?" for any other number.
pub open spec fn month_text(month: u32) -> Seq<char> {
    if month == 1 {
        "January"@
    } else if month == 2 {
        "February"@
    } else if month == 3 {
        "March"@
    } else if month == 4 {
        "April"@
    } else if month == 5 {
        "May"@
    } else if month == 6 {
        "June"@
    } else if month == 7 {
        "July"@
    } else if month == 8 {
        "August"@
    } else if month == 9 {
        "September"@
    } else if month == 10 {
        "October"@
    } else if month == 11 {
        "November"@
    } else if month == 12 {
        "December"@
    } else {
        "?"@
    }
}

/// English name of a month.
pub fn month_name(month: u32) -> (r: &'static str)
    ensures
        r@ == month_text(month),
{
    match month {
        1 => "January",
        2 => "February",
        3 => "March",
        4 => "April",
        5 => "May",
        6 => "June",
        7 => "July",
        8 => "August",
        9 => "September",
        10 => "October",
        11 => "November",
        12 => "December",
        _ => "?",
    }
}

/// When the task was last moved to Done, if ever.
pub open spec fn completion(t: TaskView) -> Option<i64> {
    let j = last_done_upto(t.transitions, t.transitions.len() - 1);
    if 0 <= j < t.transitions.len() {
        Some(t.transitions[j].at)
    } else {
        None
    }
}

/// When the task was last moved to Done, if ever.
pub fn completed_at(task: &Task) -> (r: Option<i64>)
    ensures
        r == completion(task@),
{
    let mut i: usize = task.transitions.len();
    while i > 0
        invariant
            i <= task@.transitions.len(),
            last_done_upto(task@.transitions, task@.transitions.len() - 1) == last_done_upto(
                task@.transitions,
                i - 1,
            ),
        decreases i,
    {
        if task.transitions[i - 1].to == Status::Done {
            return Some(task.transitions[i - 1].at);
        }
        i = i - 1;
    }
    None
}

/// Whole seconds from `from` to `to`, truncated toward zero, over all of `i64`.
pub open spec fn span_secs(from: i64, to: i64) -> int {
    let d = to - from;
    if d >= 0 {
        d / 1000
    } else {
        -((-d) / 1000)
    }
}

/// Seconds from creation to the last completion, never below zero.
pub fn elapsed_to_done(task: &Task) -> (r: Option<i64>)
    ensures
        r == match completion(task@) {
            Some(end) => Some(
                if span_secs(task@.created_at, end) > 0 {
                    span_secs(task@.created_at, end) as i64
                } else {
                    0i64
                },
            ),
            None => None,
        },
{
    match completed_at(task) {
        None => None,
        Some(end) => {
            let d: i128 = end as i128 - task.created_at as i128;
            let secs: i128 = if d >= 0 {
                d / 1000
            } else {
                -((-d) / 1000)
            };
            Some(
                if secs > 0 {
                    secs as i64
                } else {
                    0
                },
            )
        },
    }
}

/// The title of the parent `parent_id` as the done list shows it: cut to
/// 21 characters and an ellipsis when longer than 22.
pub fn parent_title(tasks: &Vec<Task>, parent_id: Option<u128>) -> (r: Option<String>)
    ensures
        match parent_id {
            None => r is None,
            Some(pid) => match crate::tree::lookup(views(tasks@), pid) {
                None => r is None,
                Some(p) => r matches Some(t) && t@ == (if p.title.len() > 22 {
                    p.title.take(21) + "\u{2026}"@
                } else {
                    p.title
                }),
            },
        },
{
    let pid = match parent_id {
        Some(p) => p,
        None => {
            return None;
        },
    };
    match crate::tree::find_index(tasks, pid) {
        None => None,
        Some(i) => {
            proof {
                crate::tree::lemma_first_index(views(tasks@), pid);
            }
            let title = tasks[i].title.as_str();
            if title.unicode_len() > 22 {
                let head = truncate_to(title, 21);
                Some(concat(head.as_str(), "\u{2026}"))
            } else {
                Some(tasks[i].title.clone())
            }
        },
    }
}

/// The key that orders signed numbers as unsigned ones.
pub open spec fn signed_key(x: i64) -> u128 {
    (x as int + 9223372036854775808int) as u128
}

/// `a` divided by a positive `b`, truncated toward zero.
pub open spec fn trunc_div(a: int, b: int) -> int {
    if a >= 0 {
        a / b
    } else {
        -((-a) / b)
    }
}

/// Sum of `s[..k]`.
pub open spec fn total(s: Seq<i64>, k: int) -> int
    decreases k,
{
    if k <= 0 {
        0
    } else {
        total(s, k - 1) + s[k - 1]
    }
}

/// The order in which `s` sorts (equal values kept in list order).
pub open spec fn sort_order(s: Seq<i64>) -> Seq<usize> {
    let keys = Seq::new(s.len(), |i: int| signed_key(s[i]));
    choose|p: Seq<usize>| is_stable_order(keys, p)
}

/// Average (truncated toward zero), median, least and greatest of the
/// completion times; all `None` for an empty list.
pub fn compute_stats(elapsed_times: &[i64]) -> (r: (Option<i64>, Option<i64>, Option<i64>, Option<i64>))
    requires
        i64::MIN <= total(elapsed_times@, elapsed_times@.len() as int) <= i64::MAX,
    ensures
        elapsed_times@.len() == 0 ==> r == (None::<i64>, None::<i64>, None::<i64>, None::<i64>),
        elapsed_times@.len() > 0 ==> ({
            let s = elapsed_times@;
            let p = sort_order(s);
            let n = s.len() as int;
            r == (
                Some(trunc_div(total(s, n), n) as i64),
                Some(s[p[n / 2] as int]),
                Some(s[p[0] as int]),
                Some(s[p[n - 1] as int]),
            )
        }),
{
    let n = elapsed_times.len();
    if n == 0 {
        return (None, None, None, None);
    }
    let ghost s = elapsed_times@;
    let mut keys: Vec<u128> = Vec::new();
    let mut sum: i128 = 0;
    let mut k: usize = 0;
    while k < n
        invariant
            k <= n,
            n == s.len(),
            s == elapsed_times@,
            keys@.len() == k,
            forall|i: int| 0 <= i < k ==> keys@[i] == signed_key(s[i]),
            sum == total(s, k as int),
            -0x8000_0000_0000_0000 * k <= sum <= 0x7fff_ffff_ffff_ffff * k,
        decreases n - k,
    {
        let x = elapsed_times[k];
        keys.push(((x as i128) + 0x8000_0000_0000_0000i128) as u128);
        sum = sum + x as i128;
        k = k + 1;
    }
    let ghost kv = Seq::new(s.len(), |i: int| signed_key(s[i]));
    proof {
        assert(keys@ =~= kv);
    }
    let p = crate::sorting::stable_order(&keys);
    proof {
        let q = sort_order(s);
        crate::sorting::lemma_stable_order_unique(kv, p@, q);
    }
    let nn = n as i128;
    let avg: i128 = if sum >= 0 {
        sum / nn
    } else {
        -((-sum) / nn)
    };
    (Some(avg as i64), Some(elapsed_times[p[n / 2]]), Some(elapsed_times[p[0]]), Some(elapsed_times[p[n - 1]]))
}

/// How many whole weeks before `now` the instant `at` is (milliseconds; each
/// step truncated toward zero, as `TimeDelta::num_weeks` counts).
pub open spec fn weeks_before(now: i64, at: i64) -> int {
    trunc_div(trunc_div(trunc_div(now - at, 1000), 86400), 7)
}

/// Completed tasks per week over the last eight weeks, oldest first: entry
/// `7 - w` counts the tasks of `done` completed `w` whole weeks before `now`.
pub open spec fn weekly_counts(done: Seq<TaskView>, now: i64, k: int) -> Seq<nat>
    decreases k,
{
    if k <= 0 {
        seq![0nat, 0, 0, 0, 0, 0, 0, 0]
    } else {
        let prev = weekly_counts(done, now, k - 1);
        match completion(done[k - 1]) {
            Some(c) => {
                let w = weeks_before(now, c);
                if 0 <= w < 8 {
                    prev.update(7 - w, prev[7 - w] + 1)
                } else {
                    prev
                }
            },
            None => prev,
        }
    }
}

proof fn lemma_weekly_counts_bounded(done: Seq<TaskView>, now: i64, k: int)
    requires
        0 <= k,
    ensures
        weekly_counts(done, now, k).len() == 8,
        forall|i: int| 0 <= i < 8 ==> #[trigger] weekly_counts(done, now, k)[i] <= k,
    decreases k,
{
    if k > 0 {
        lemma_weekly_counts_bounded(done, now, k - 1);
    }
}

/// Completed tasks per week over the last eight weeks, oldest first.
pub fn weekly_done_counts(done: &[&Task], now: i64) -> (r: [usize; 8])
    ensures
        forall|i: int| 0 <= i < 8 ==> r@[i] == #[trigger] weekly_counts(deref_tasks(done@), now, done@.len() as int)[i],
{
    let ghost ds = deref_tasks(done@);
    let mut counts: [usize; 8] = [0; 8];
    let mut k: usize = 0;
    proof {
        assert(weekly_counts(ds, now, 0) =~= seq![0nat, 0, 0, 0, 0, 0, 0, 0]);
    }
    while k < done.len()
        invariant
            k <= done@.len(),
            ds == deref_tasks(done@),
            forall|i: int| 0 <= i < 8 ==> counts@[i] == #[trigger] weekly_counts(ds, now, k as int)[i],
        decreases done@.len() - k,
    {
        proof {
            lemma_weekly_counts_bounded(ds, now, k as int);
        }
        let t: &Task = done[k];
        proof {
            assert(ds[k as int] == t@);
        }
        match completed_at(t) {
            Some(c) => {
                let diff: i128 = (now as i128) - (c as i128);
                let secs: i128 = if diff >= 0 { diff / 1000 } else { -((-diff) / 1000) };
                let days: i128 = if secs >= 0 { secs / 86400 } else { -((-secs) / 86400) };
                let w: i128 = if days >= 0 { days / 7 } else { -((-days) / 7) };
                proof {
                    assert(w == weeks_before(now, c));
                }
                if 0 <= w && w < 8 {
                    let slot = (7 - w) as usize;
                    proof {
                        assert(weekly_counts(ds, now, k as int)[slot as int] <= k);
                        assert(counts@[slot as int] <= k);
                    }
                    counts[slot] = counts[slot] + 1;
                }
            },
            None => {},
        }
        k = k + 1;
    }
    counts
}

/// The tasks behind the references.
pub open spec fn deref_tasks(s: Seq<&Task>) -> Seq<TaskView> {
    Seq::new(s.len(), |i: int| (*s[i])@)
}

/// The first active flag pill that `flags` holds, if any (pill `i` is bit `i`).
pub open spec fn first_flag_in(flags: u8, active: Seq<bool>) -> Option<usize> {
    if active[0] && (flags >> 0u8) & 1u8 == 1u8 {
        Some(0)
    } else if active[1] && (flags >> 1u8) & 1u8 == 1u8 {
        Some(1)
    } else if active[2] && (flags >> 2u8) & 1u8 == 1u8 {
        Some(2)
    } else {
        None
    }
}

/// The first active flag pill that a task's `flags` hold, which colours it.
pub fn first_active_flag(flags: u8, active: &[bool; 3]) -> (r: Option<usize>)
    ensures
        r == first_flag_in(flags, active@),
{
    let mut i: usize = 0;
    while i < 3
        invariant
            i <= 3,
            forall|j: int| 0 <= j < i ==> !(active@[j] && (flags >> (j as u8)) & 1u8 == 1u8),
        decreases 3 - i,
    {
        if active[i] && (flags >> (i as u8)) & 1u8 == 1u8 {
            return Some(i);
        }
        i = i + 1;
    }
    None
}

/// Number of tasks with status `s`.
pub fn count_with_status(tasks: &Vec<Task>, s: Status) -> (n: usize)
    ensures
        n == crate::board::count_where(views(tasks@), |t: TaskView| t.status == s, views(tasks@).len() as int),
{
    let ghost p = |t: TaskView| t.status == s;
    let mut n: usize = 0;
    let mut k: usize = 0;
    while k < tasks.len()
        invariant
            k <= views(tasks@).len(),
            n == crate::board::count_where(views(tasks@), p, k as int),
            p == (|t: TaskView| t.status == s),
        decreases views(tasks@).len() - k,
    {
        proof {
            crate::board::lemma_count_le(views(tasks@), p, k as int);
        }
        if tasks[k].status == s {
            n = n + 1;
        }
        k = k + 1;
    }
    n
}

/// The Done tasks among the first `k`.
pub open spec fn done_among(ts: Seq<TaskView>, k: int) -> Seq<TaskView>
    decreases k,
{
    if k <= 0 {
        Seq::empty()
    } else if ts[k - 1].status == Status::Done {
        done_among(ts, k - 1).push(ts[k - 1])
    } else {
        done_among(ts, k - 1)
    }
}

/// The Done tasks, in list order.
pub fn done_refs(tasks: &Vec<Task>) -> (r: Vec<&Task>)
    ensures
        deref_tasks(r@) == done_among(views(tasks@), views(tasks@).len() as int),
{
    let mut r: Vec<&Task> = Vec::new();
    let mut k: usize = 0;
    while k < tasks.len()
        invariant
            k <= tasks@.len(),
            deref_tasks(r@) == done_among(views(tasks@), k as int),
        decreases tasks@.len() - k,
    {
        let ghost before = deref_tasks(r@);
        if tasks[k].status == Status::Done {
            r.push(&tasks[k]);
            proof {
                assert(deref_tasks(r@) =~= before.push(tasks@[k as int]@));
            }
        }
        k = k + 1;
    }
    r
}

/// The completion times (seconds from creation) of the tasks that were
/// completed, in order.
pub open spec fn elapsed_of(ts: Seq<TaskView>, k: int) -> Seq<i64>
    decreases k,
{
    if k <= 0 {
        Seq::empty()
    } else {
        match completion(ts[k - 1]) {
            Some(end) => elapsed_of(ts, k - 1).push(
                if span_secs(ts[k - 1].created_at, end) > 0 {
                    span_secs(ts[k - 1].created_at, end) as i64
                } else {
                    0i64
                },
            ),
            None => elapsed_of(ts, k - 1),
        }
    }
}

/// The completion times (seconds from creation) of the tasks of `done`
/// that were completed.
pub fn elapsed_times(done: &Vec<&Task>) -> (r: Vec<i64>)
    ensures
        r@ == elapsed_of(deref_tasks(done@), done@.len() as int),
{
    let ghost ds = deref_tasks(done@);
    let mut r: Vec<i64> = Vec::new();
    let mut k: usize = 0;
    while k < done.len()
        invariant
            k <= done@.len(),
            ds == deref_tasks(done@),
            r@ == elapsed_of(ds, k as int),
        decreases done@.len() - k,
    {
        proof {
            assert(ds[k as int] == (*done@[k as int])@);
        }
        match elapsed_to_done(done[k]) {
            Some(e) => r.push(e),
            None => {},
        }
        k = k + 1;
    }
    r
}

} // verus!
