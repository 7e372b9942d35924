use zen::display::{
    compute_browser_scroll, compute_stats, format_duration, format_relative_secs, month_name, parent_title,
    truncate_to, wrap_height,
};
use zen::presses::double_press;
use zen::task::{Status, Task};
use zen::text::trim_text;

#[test]
fn format_duration_examples() {
    assert_eq!(format_duration(0), "—");
    assert_eq!(format_duration(-5), "—");
    assert_eq!(format_duration(45), "45s");
    assert_eq!(format_duration(125), "2m");
    assert_eq!(format_duration(3600), "1h");
    assert_eq!(format_duration(3600 + 120), "1h 2m");
    assert_eq!(format_duration(86_400), "1d");
    assert_eq!(format_duration(2 * 86_400 + 3 * 3600 + 59), "2d 3h");
}

#[test]
fn format_relative_examples() {
    assert_eq!(format_relative_secs(5).as_deref(), Some("just now"));
    assert_eq!(format_relative_secs(120).as_deref(), Some("2m ago"));
    assert_eq!(format_relative_secs(7200).as_deref(), Some("2h ago"));
    assert_eq!(format_relative_secs(3 * 86_400).as_deref(), Some("3d ago"));
    assert_eq!(format_relative_secs(7 * 86_400), None);
}

#[test]
fn browser_scroll_keeps_cursor_three_rows_from_the_edges() {
    assert_eq!(compute_browser_scroll(0, 0, 0), 0);
    assert_eq!(compute_browser_scroll(10, 0, 5), 9);
    assert_eq!(compute_browser_scroll(10, 20, 20), 7);
    assert_eq!(compute_browser_scroll(5, 1, 20), 1);
    assert_eq!(compute_browser_scroll(1, 4, 20), 0);
}

#[test]
fn wrap_height_counts_wrapped_lines() {
    assert_eq!(wrap_height(2, 3, 0), 1);
    assert_eq!(wrap_height(2, 8, 10), 1);
    assert_eq!(wrap_height(2, 9, 10), 2);
    assert_eq!(wrap_height(2, 28, 10), 3);
}

#[test]
fn truncate_to_counts_characters() {
    assert_eq!(truncate_to("héllo", 3), "hél");
    assert_eq!(truncate_to("abc", 5), "abc");
}

#[test]
fn month_names() {
    assert_eq!(month_name(1), "January");
    assert_eq!(month_name(12), "December");
    assert_eq!(month_name(13), "?");
}

#[test]
fn stats_of_completion_times() {
    assert_eq!(compute_stats(&[]), (None, None, None, None));
    assert_eq!(compute_stats(&[30, 10, 20, 40]), (Some(25), Some(30), Some(10), Some(40)));
}

#[test]
fn parent_title_is_cut_after_twenty_one_characters() {
    let p = Task::new("abcdefghijklmnopqrstuvwxyz".into(), "".into(), Status::Todo);
    let q = Task::new("short".into(), "".into(), Status::Todo);
    let (pid, qid) = (p.id, q.id);
    let tasks = vec![p, q];
    assert_eq!(parent_title(&tasks, Some(pid)).as_deref(), Some("abcdefghijklmnopqrstu…"));
    assert_eq!(parent_title(&tasks, Some(qid)).as_deref(), Some("short"));
    assert_eq!(parent_title(&tasks, None), None);
}

#[test]
fn double_press_needs_under_half_a_second() {
    assert!(double_press(Some(499)));
    assert!(!double_press(Some(500)));
    assert!(!double_press(None));
}

#[test]
fn trim_text_strips_unicode_whitespace() {
    assert_eq!(trim_text("  hi there \t\n"), "hi there");
    assert_eq!(trim_text("\u{3000}x\u{3000}"), "x");
    assert_eq!(trim_text("   "), "");
}

use zen::display::{first_active_flag, weekly_done_counts};
use zen::task::Transition;

#[test]
fn first_active_flag_picks_the_lowest_shared_pill() {
    assert_eq!(first_active_flag(0b110, &[true, true, true]), Some(1));
    assert_eq!(first_active_flag(0b110, &[true, false, true]), Some(2));
    assert_eq!(first_active_flag(0b001, &[false, true, true]), None);
}

#[test]
fn weekly_counts_bucket_by_whole_weeks() {
    let week: i64 = 7 * 86_400_000;
    let now: i64 = 100 * week;
    let mk = |at: i64| {
        let mut t = Task::new("t".into(), "".into(), Status::Done);
        t.transitions.push(Transition { from: Status::Doing, to: Status::Done, at });
        t
    };
    let a = mk(now - 1000);
    let b = mk(now - week - 5);
    let c = mk(now - 3 * week);
    let d = mk(now - 9 * week);
    let e = mk(now + 2 * week);
    let done = vec![&a, &b, &c, &d, &e];
    assert_eq!(weekly_done_counts(&done, now), [0, 0, 0, 0, 1, 0, 1, 1]);
}

use zen::display::{count_with_status, done_refs, elapsed_times};

#[test]
fn status_counts_and_completion_times() {
    let mut a = Task::new("a".into(), "".into(), Status::Done);
    a.created_at = 0;
    a.transitions.push(Transition { from: Status::Todo, to: Status::Done, at: 90_500 });
    let b = Task::new("b".into(), "".into(), Status::Todo);
    let mut c = Task::new("c".into(), "".into(), Status::Done);
    c.created_at = 1_000;
    let tasks = vec![a, b, c];
    assert_eq!(count_with_status(&tasks, Status::Done), 2);
    assert_eq!(count_with_status(&tasks, Status::Todo), 1);
    assert_eq!(count_with_status(&tasks, Status::Doing), 0);
    let done = done_refs(&tasks);
    assert_eq!(done.len(), 2);
    assert_eq!(elapsed_times(&done), vec![90]);
}
