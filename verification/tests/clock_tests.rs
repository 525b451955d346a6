use tvguide::clock::{
    add_hours, broadcast_date, code_of_date, code_of_hour, code_of_moment, date_after,
    date_before, floor_to_hour, hour_after, leap_year, month_days, moment_valid, needs_next_day,
    CalDate, Moment,
};

fn at(year: u64, month: u64, day: u64, hour: u64, minute: u64) -> Moment {
    Moment { year, month, day, hour, minute }
}

#[test]
fn broadcast_date_before_cutover_is_previous_day() {
    // 2025-01-15 03:00 is before 05:00, so the broadcast day is still
    // 2025-01-14.
    let d = broadcast_date(&at(2025, 1, 15, 3, 0));
    assert_eq!(code_of_date(&d), 20250114);
    assert_eq!(code_of_moment(&at(2025, 1, 15, 3, 0)), 202501150300);
}

#[test]
fn broadcast_date_at_and_after_cutover_is_same_day() {
    assert_eq!(code_of_date(&broadcast_date(&at(2025, 1, 15, 5, 0))), 20250115);
    assert_eq!(code_of_date(&broadcast_date(&at(2025, 1, 15, 23, 59))), 20250115);
}

#[test]
fn broadcast_date_exhaustive_over_a_day() {
    for hour in 0..24u64 {
        for minute in 0..60u64 {
            let d = broadcast_date(&at(2025, 1, 15, hour, minute));
            let expected = if hour < 5 { 20250114 } else { 20250115 };
            assert_eq!(code_of_date(&d), expected);
        }
    }
}

#[test]
fn broadcast_date_crosses_month_and_year() {
    assert_eq!(code_of_date(&broadcast_date(&at(2025, 3, 1, 4, 59))), 20250228);
    assert_eq!(code_of_date(&broadcast_date(&at(2024, 3, 1, 0, 0))), 20240229);
    assert_eq!(code_of_date(&broadcast_date(&at(2025, 1, 1, 2, 30))), 20241231);
}

#[test]
fn leap_year_rule() {
    assert!(leap_year(2024));
    assert!(!leap_year(2025));
    assert!(!leap_year(1900));
    assert!(leap_year(2000));
    assert_eq!(month_days(2024, 2), 29);
    assert_eq!(month_days(2025, 2), 28);
    assert_eq!(month_days(2025, 4), 30);
    assert_eq!(month_days(2025, 12), 31);
}

#[test]
fn date_stepping() {
    let d = CalDate { year: 2025, month: 1, day: 1 };
    assert_eq!(code_of_date(&date_before(&d)), 20241231);
    let e = CalDate { year: 2024, month: 2, day: 28 };
    assert_eq!(code_of_date(&date_after(&e)), 20240229);
    let f = CalDate { year: 2024, month: 12, day: 31 };
    assert_eq!(code_of_date(&date_after(&f)), 20250101);
}

#[test]
fn add_hours_keeps_minutes_and_rolls_days() {
    let m = add_hours(&at(2024, 2, 28, 23, 30), 1);
    assert_eq!(code_of_moment(&m), 202402290030);
    let n = add_hours(&at(2024, 12, 31, 23, 59), 25);
    assert_eq!(code_of_moment(&n), 202501020059);
    let same = add_hours(&at(2025, 6, 15, 10, 5), 0);
    assert_eq!(code_of_moment(&same), 202506151005);
}

#[test]
fn hour_after_wraps_midnight() {
    let m = hour_after(&at(2025, 1, 31, 23, 10));
    assert_eq!(code_of_moment(&m), 202502010010);
}

#[test]
fn needs_next_day_only_when_window_crosses_five() {
    // 03:00 + 1h ends 04:00: still the same broadcast day.
    assert!(!needs_next_day(&at(2025, 1, 15, 3, 0), 1));
    // 03:00 + 2h ends 05:00: the next broadcast day has begun.
    assert!(needs_next_day(&at(2025, 1, 15, 3, 0), 2));
    // 23:00 + 2h crosses midnight but not 05:00: same broadcast day.
    assert!(!needs_next_day(&at(2025, 1, 15, 23, 0), 2));
    // 23:00 + 7h reaches 06:00 of the next calendar day: crossed.
    assert!(needs_next_day(&at(2025, 1, 15, 23, 0), 7));
}

#[test]
fn needs_next_day_exhaustive_over_a_day() {
    // Independent expectation: the window crosses the cutover exactly
    // when `now + h hours` reaches the next 05:00 boundary.
    for h in [1u64, 2, 7, 12] {
        for hour in 0..24u64 {
            for minute in 0..60u64 {
                let now = at(2025, 1, 15, hour, minute);
                let minutes_to_five = if hour < 5 {
                    (5 - hour) * 60 - minute
                } else {
                    (29 - hour) * 60 - minute
                };
                let expected = h * 60 >= minutes_to_five;
                assert_eq!(needs_next_day(&now, h), expected, "h={} {}:{}", h, hour, minute);
            }
        }
    }
}

#[test]
fn moment_validity() {
    assert!(moment_valid(&at(2025, 1, 15, 0, 0)));
    assert!(!moment_valid(&at(2025, 13, 1, 0, 0)));
    assert!(!moment_valid(&at(2025, 2, 29, 0, 0)));
    assert!(moment_valid(&at(2024, 2, 29, 0, 0)));
    assert!(!moment_valid(&at(2025, 1, 15, 24, 0)));
    assert!(!moment_valid(&at(2025, 1, 15, 0, 60)));
}

#[test]
fn hour_floor_and_code() {
    let m = at(2025, 1, 15, 6, 45);
    let f = floor_to_hour(&m);
    assert_eq!(code_of_moment(&f), 202501150600);
    assert_eq!(code_of_hour(&m), 2025011506);
}
