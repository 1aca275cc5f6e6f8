use gitlocalstats::aggregate::plan_repository;
use gitlocalstats::backend::{
    commit_seconds, count_log_output, log_line_verdict, parse_log_line, NativeWalk, WalkStep,
};
use gitlocalstats::counts::CommitCounts;
use gitlocalstats::heatmap::{cell_day, cell_shade, grid_start, week_columns, CellShade};
use gitlocalstats::scanner::RepoKind;
use gitlocalstats::window::Window;

const NOW: i64 = 1_700_000_000; // 2023-11-14T22:13:20Z, day 19675
const START: i64 = 1_684_188_800; // 183 days earlier, day 19492

fn window() -> Window {
    Window::ending_at(NOW, 0).unwrap()
}

#[test]
fn window_start_is_183_days_back() {
    let w = window();
    assert_eq!(w.start_nanos, START as i128 * 1_000_000_000);
    assert_eq!(w.start_day, 19492);
    let w2 = Window::ending_at(NOW, 500).unwrap();
    assert_eq!(w2.start_nanos, START as i128 * 1_000_000_000 + 500);
}

#[test]
fn window_day_before_1970() {
    let w = Window::ending_at(183 * 86400 - 1, 0).unwrap();
    assert_eq!(w.start_nanos, -1_000_000_000);
    assert_eq!(w.start_day, -1);
}

#[test]
fn window_boundary_is_inclusive() {
    let w = window();
    assert!(w.includes_timestamp(START));
    assert!(!w.includes_timestamp(START - 1));
    assert!(!w.includes_timestamp(START - 86400));
    assert!(w.includes_day(19492));
    assert!(!w.includes_day(19491));
    let w2 = Window::ending_at(NOW, 1).unwrap();
    assert!(!w2.includes_timestamp(START));
    assert!(w2.includes_timestamp(START + 1));
}

#[test]
fn staleness_by_marker_time() {
    let w = window();
    let start = START as i128 * 1_000_000_000;
    assert!(w.is_stale(Some(start - 1)));
    assert!(!w.is_stale(Some(start)));
    assert!(!w.is_stale(None));
}

#[test]
fn plan_skips_stale_repositories() {
    let w = window();
    let old = Some(1_600_000_000i128 * 1_000_000_000);
    let fresh = Some(NOW as i128 * 1_000_000_000);
    assert_eq!(plan_repository(&w, true, false, fresh, None), Some(RepoKind::NativeFormat));
    assert_eq!(plan_repository(&w, true, true, old, fresh), None);
    assert_eq!(plan_repository(&w, false, true, None, fresh), Some(RepoKind::LogSubprocess));
    assert_eq!(plan_repository(&w, false, true, None, old), None);
    assert_eq!(plan_repository(&w, true, false, None, None), Some(RepoKind::NativeFormat));
    assert_eq!(plan_repository(&w, false, false, fresh, fresh), None);
}

#[test]
fn raw_commit_times() {
    assert_eq!(commit_seconds("1700000000 +0100"), 1_700_000_000);
    assert_eq!(commit_seconds("  -5 -0700"), -5);
    assert_eq!(commit_seconds("abc +0000"), 0);
    assert_eq!(commit_seconds(""), 0);
}

#[test]
fn native_walk_counts_identity_and_stops_before_window() {
    let mut walk = NativeWalk::new(window(), b"me@example.com".to_vec());
    assert_eq!(walk.observe(b"me@example.com", "1700000000 +0000"), WalkStep::Continue);
    assert_eq!(walk.observe(b"other@example.com", "1699990000 +0000"), WalkStep::Continue);
    assert_eq!(walk.observe(b"me@example.com", "1699999000 -0500"), WalkStep::Continue);
    assert_eq!(walk.observe(b"me@example.com", "1684188800 +0000"), WalkStep::Continue);
    assert_eq!(walk.observe(b"me@example.com", "1684188799 +0000"), WalkStep::Stop);
    let c = walk.finish();
    assert_eq!(c.entries(), vec![(19492, 1), (19675, 2)]);
}

#[test]
fn native_walk_ignores_other_authors() {
    let mut walk = NativeWalk::new(window(), b"me@example.com".to_vec());
    assert_eq!(walk.observe(b"Me@example.com", "1700000000 +0000"), WalkStep::Continue);
    assert_eq!(walk.observe(b"you@example.com", "1690000000 +0000"), WalkStep::Continue);
    assert!(walk.finish().is_empty());
}

#[test]
fn native_walk_failure_yields_nothing() {
    let mut walk = NativeWalk::new(window(), b"me@example.com".to_vec());
    assert_eq!(walk.observe(b"me@example.com", "1700000000 +0000"), WalkStep::Continue);
    walk.fail();
    assert!(walk.finish().is_empty());

    let mut walk = NativeWalk::new(window(), b"me@example.com".to_vec());
    assert_eq!(walk.observe(b"me@example.com", "9223372036854775807 +0000"), WalkStep::Stop);
    assert!(walk.finish().is_empty());
}

#[test]
fn one_commit_today_gives_one_entry() {
    let mut walk = NativeWalk::new(window(), b"test@example.com".to_vec());
    assert_eq!(walk.observe(b"test@example.com", "1700000000 +0000"), WalkStep::Continue);
    let parts = vec![walk.finish(), CommitCounts::new()];
    let total = CommitCounts::merge_all(&parts);
    assert_eq!(total.entries(), vec![(19675, 1)]);
    assert_eq!(total.get(19675), 1);
}

#[test]
fn log_line_verdicts() {
    let w = window();
    assert_eq!(log_line_verdict("me@x", Some(19500), "me@x", &w), Some(19500));
    assert_eq!(log_line_verdict("me@x", Some(19492), "me@x", &w), Some(19492));
    assert_eq!(log_line_verdict("me@x", Some(19491), "me@x", &w), None);
    assert_eq!(log_line_verdict("you@x", Some(19500), "me@x", &w), None);
    assert_eq!(log_line_verdict("me@x", None, "me@x", &w), None);
}

#[test]
fn log_lines_are_parsed() {
    let w = window();
    assert_eq!(parse_log_line("me@x|2023-11-14", "me@x", &w), Some(19675));
    assert_eq!(parse_log_line("me@x|2023-05-15", "me@x", &w), Some(19492));
    assert_eq!(parse_log_line("  me@x | 2023-05-15 ", "me@x", &w), None);
    assert_eq!(parse_log_line(" me@x|2023-05-15", "me@x", &w), None);
    assert_eq!(parse_log_line("me@x|2023-05-15 ", "me@x", &w), None);
    assert_eq!(parse_log_line(" m|2023-05-15", " m", &w), Some(19492));
    assert_eq!(parse_log_line("me@x|2023-05-14", "me@x", &w), None);
    assert_eq!(parse_log_line("me@x|not-a-date", "me@x", &w), None);
    assert_eq!(parse_log_line("me@x 2023-11-14", "me@x", &w), None);
    assert_eq!(parse_log_line("you@x|2023-11-14", "me@x", &w), None);
    assert_eq!(parse_log_line("me@x|2023-11-14|extra", "me@x", &w), Some(19675));
}

#[test]
fn log_output_is_counted_without_early_stop() {
    let w = window();
    let out = "me@x|2023-11-14\nme@x|2020-01-01\nyou@x|2023-11-14\nbroken\nme@x|2023-11-14\r\nme@x|2023-06-01\n";
    let c = count_log_output(out, "me@x", &w);
    assert_eq!(c.entries(), vec![(19509, 1), (19675, 2)]);
    assert!(count_log_output("", "me@x", &w).is_empty());
}

#[test]
fn heatmap_shades() {
    assert_eq!(cell_shade(0, true), CellShade::Empty);
    assert_eq!(cell_shade(3, true), CellShade::Today);
    assert_eq!(cell_shade(1, false), CellShade::Low);
    assert_eq!(cell_shade(4, false), CellShade::Low);
    assert_eq!(cell_shade(5, false), CellShade::Medium);
    assert_eq!(cell_shade(9, false), CellShade::Medium);
    assert_eq!(cell_shade(10, false), CellShade::High);
}

#[test]
fn heatmap_layout() {
    assert_eq!(week_columns(0), 0);
    assert_eq!(week_columns(7), 1);
    assert_eq!(week_columns(8), 2);
    assert_eq!(week_columns(187), 27);
    assert_eq!(grid_start(19492, 1), 19491);
    assert_eq!(grid_start(19492, 0), 19492);
}

#[test]
fn raw_commit_times_out_of_range_or_malformed() {
    assert_eq!(commit_seconds("+12 +0000"), 12);
    assert_eq!(commit_seconds("99999999999999999999 +0000"), 0);
    assert_eq!(commit_seconds("1e5 +0000"), 0);
    assert_eq!(commit_seconds("- +0000"), 0);
}

#[test]
fn heatmap_cells_stop_after_today() {
    assert_eq!(cell_day(19491, 0, 0, 19675), Some(19491));
    assert_eq!(cell_day(19491, 2, 3, 19675), Some(19508));
    assert_eq!(cell_day(19491, 26, 2, 19675), Some(19675));
    assert_eq!(cell_day(19491, 26, 3, 19675), None);
    assert_eq!(cell_day(i32::MAX - 1, 1, 0, i32::MAX), None);
}

#[test]
fn unicode_white_space_separates_words() {
    let w = window();
    assert_eq!(parse_log_line("\u{a0}me@x\u{3000}|\t2023-11-14\u{2009}", "me@x", &w), None);
    assert_eq!(commit_seconds("\u{3000}42\u{85}+0000"), 42);
    assert_eq!(commit_seconds("\u{200b}42 +0000"), 0);
}
