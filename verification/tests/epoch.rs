use porkchop::epoch::{search_start_epoch, DateError};

#[test]
fn unix_epoch_is_offset_by_the_1970_tai_utc_difference() {
    // 1970-01-01 00:00:00 UTC is 8.000082 s after 1970-01-01 00:00:00 TAI.
    assert_eq!(search_start_epoch((1970, 1, 1)), Ok(8_000_082));
}

#[test]
fn epoch_of_2026_counts_the_leap_seconds() {
    // 2026-01-01 00:00:00 UTC is Unix time 1767225600 s; TAI - UTC is 37 s.
    assert_eq!(search_start_epoch((2026, 1, 1)), Ok((1_767_225_600 + 37) * 1_000_000));
}

#[test]
fn consecutive_days_differ_by_one_day() {
    let a = search_start_epoch((2026, 3, 1)).unwrap();
    let b = search_start_epoch((2026, 3, 2)).unwrap();
    assert_eq!(b - a, 86_400_000_000);
}

#[test]
fn leap_day_is_accepted_only_in_leap_years() {
    assert!(search_start_epoch((2024, 2, 29)).is_ok());
    assert!(search_start_epoch((2000, 2, 29)).is_ok());
    assert_eq!(search_start_epoch((2023, 2, 29)), Err(DateError::InvalidDay(29)));
    assert_eq!(search_start_epoch((1900, 2, 29)), Err(DateError::InvalidDay(29)));
}

#[test]
fn month_out_of_range_is_refused_first() {
    assert_eq!(search_start_epoch((2026, 0, 1)), Err(DateError::InvalidMonth(0)));
    assert_eq!(search_start_epoch((2026, 13, 40)), Err(DateError::InvalidMonth(13)));
}

#[test]
fn day_out_of_range_is_refused() {
    assert_eq!(search_start_epoch((2026, 4, 31)), Err(DateError::InvalidDay(31)));
    assert_eq!(search_start_epoch((2026, 1, 0)), Err(DateError::InvalidDay(0)));
    assert!(search_start_epoch((2026, 1, 31)).is_ok());
}

#[test]
fn far_years_overflow_the_microsecond_count() {
    assert_eq!(search_start_epoch((i32::MAX, 1, 1)), Err(DateError::YearOutOfRange(i32::MAX)));
    assert!(search_start_epoch((200_000, 1, 1)).is_ok());
    assert!(search_start_epoch((-200_000, 1, 1)).is_ok());
}

fn days_before_year(y: i64) -> i64 {
    365 * y + (y + 3).div_euclid(4) - (y + 99).div_euclid(100) + (y + 399).div_euclid(400)
}

fn unix_day(y: i64, m: i64, d: i64) -> i64 {
    let cum = [0, 31, 59, 90, 120, 151, 181, 212, 243, 273, 304, 334][(m - 1) as usize];
    let leap = (y % 4 == 0 && y % 100 != 0) || y % 400 == 0;
    days_before_year(y) + cum + if m > 2 && leap { 1 } else { 0 } + d - 1 - days_before_year(1970)
}

fn days_in_month(y: i32, m: i32) -> i32 {
    let leap = (y % 4 == 0 && y % 100 != 0) || y % 400 == 0;
    match m {
        2 => if leap { 29 } else { 28 },
        4 | 6 | 9 | 11 => 30,
        _ => 31,
    }
}

#[test]
fn epochs_since_2017_are_day_numbers_plus_37_seconds() {
    for y in 2017..2101 {
        for m in 1..13 {
            for d in 1..=days_in_month(y, m) {
                let n = unix_day(y as i64, m as i64, d as i64);
                assert_eq!(search_start_epoch((y, m, d)), Ok(n * 86_400_000_000 + 37_000_000));
            }
        }
    }
}

#[test]
fn epochs_before_1961_are_day_numbers() {
    for y in [-4713, -1, 0, 1, 1582, 1900, 1960] {
        for m in 1..13 {
            for d in 1..=days_in_month(y, m) {
                let n = unix_day(y as i64, m as i64, d as i64);
                assert_eq!(search_start_epoch((y, m, d)), Ok(n * 86_400_000_000));
            }
        }
    }
}

#[test]
fn known_day_numbers() {
    assert_eq!(unix_day(1970, 1, 1), 0);
    assert_eq!(search_start_epoch((1960, 12, 31)), Ok(-3288 * 86_400_000_000));
    assert_eq!(search_start_epoch((2017, 1, 1)), Ok(17_167 * 86_400_000_000 + 37_000_000));
}

#[test]
fn year_end_to_new_year_is_one_day_after_2017() {
    let a = search_start_epoch((2024, 12, 31)).unwrap();
    let b = search_start_epoch((2025, 1, 1)).unwrap();
    assert_eq!(b - a, 86_400_000_000);
    let c = search_start_epoch((2024, 2, 28)).unwrap();
    let d = search_start_epoch((2024, 2, 29)).unwrap();
    let e = search_start_epoch((2024, 3, 1)).unwrap();
    assert_eq!(d - c, 86_400_000_000);
    assert_eq!(e - d, 86_400_000_000);
}

#[test]
fn dates_beyond_200000_years_are_given_while_they_fit() {
    assert!(search_start_epoch((250_000, 1, 1)).is_ok());
    assert!(search_start_epoch((-250_000, 1, 1)).is_ok());
    assert_eq!(search_start_epoch((300_000, 1, 1)), Err(DateError::YearOutOfRange(300_000)));
    assert_eq!(search_start_epoch((-300_000, 1, 1)), Err(DateError::YearOutOfRange(-300_000)));
}
