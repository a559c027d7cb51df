use std::time::{SystemTime, UNIX_EPOCH};

use hardwave_wettboi::diag::{civil_from_unix, log_is_full, log_line, timestamp, MAX_BYTES};

fn now() -> i64 {
    SystemTime::now()
        .duration_since(UNIX_EPOCH)
        .map(|d| d.as_secs())
        .unwrap_or(0) as i64
}

#[test]
fn dates_are_right() {
    assert_eq!(civil_from_unix(0), (1970, 1, 1, 0, 0, 0));
    // 2026-09-22 12:31:07Z
    assert_eq!(civil_from_unix(1_790_080_267), (2026, 9, 22, 12, 31, 7));
    // A leap day, which a naive month table gets wrong.
    assert_eq!(civil_from_unix(1_709_208_000), (2024, 2, 29, 12, 0, 0));
}

#[test]
fn the_log_holds_a_date_and_the_line() {
    let line = format!("{} hello", timestamp(now()));
    assert!(line.contains("hello"));
    assert!(line.contains('Z'), "a time without a zone is ambiguous");
    assert_eq!(line.matches('-').count(), 2, "YYYY-MM-DD");
}

#[test]
fn a_moment_is_written_out() {
    assert_eq!(timestamp(1_790_080_267), "2026-09-22 12:31:07Z");
    assert_eq!(timestamp(0), "1970-01-01 00:00:00Z");
    assert_eq!(timestamp(-1), "1969-12-31 23:59:59Z");
}

#[test]
fn a_line_of_the_log_starts_with_its_moment() {
    assert_eq!(
        log_line(1_709_208_000, "editor opening"),
        "2024-02-29 12:00:00Z editor opening"
    );
}

#[test]
fn the_ends_of_the_clock_have_dates() {
    let (y, m, d, hh, mm, ss) = civil_from_unix(i64::MAX);
    assert_eq!((y, m, d), (292_277_026_596, 12, 4));
    assert_eq!((hh, mm, ss), (15, 30, 7));
    let (y, m, d, _, _, _) = civil_from_unix(i64::MIN);
    assert_eq!((y, m, d), (-292_277_022_657, 1, 27));
}

#[test]
fn the_centuries_are_right() {
    // 1900 had no leap day, 2000 had one.
    assert_eq!(civil_from_unix(-2_203_891_200), (1900, 3, 1, 0, 0, 0));
    assert_eq!(civil_from_unix(-2_203_891_201), (1900, 2, 28, 23, 59, 59));
    assert_eq!(civil_from_unix(951_782_400), (2000, 2, 29, 0, 0, 0));
}

#[test]
fn dates_follow_each_other() {
    let mut last = (i64::MIN, 0, 0);
    for day in -200_000..200_000i64 {
        let (y, m, d, _, _, _) = civil_from_unix(day * 86_400);
        assert!((y, m, d) > last);
        last = (y, m, d);
    }
}

#[test]
fn a_log_starts_over_once_it_is_full() {
    assert!(!log_is_full(0));
    assert!(!log_is_full(MAX_BYTES));
    assert!(log_is_full(MAX_BYTES + 1));
}
