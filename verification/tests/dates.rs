use chrono::{Datelike, NaiveDate};
use comicinfo::date::{UploadDate, MAX_YEAR, MIN_YEAR};

#[test]
fn new_accepts_the_days_that_chrono_accepts() {
    let years = [MIN_YEAR - 1, MIN_YEAR, -401, -400, -100, -4, -1, 0, 1, 4, 100, 1900, 2000, 2023,
        2024, 9999, 10000, 32767, 32768, MAX_YEAR, MAX_YEAR + 1, i32::MAX, i32::MIN];
    for year in years {
        for month in 0..=13u32 {
            for day in [0u32, 1, 28, 29, 30, 31, 32, 255, 256, u32::MAX] {
                let ours = UploadDate::new(year, month, day);
                let theirs = NaiveDate::from_ymd_opt(year, month, day);
                assert_eq!(ours.is_some(), theirs.is_some(), "{} {} {}", year, month, day);
                if let (Some(ours), Some(theirs)) = (ours, theirs) {
                    assert_eq!(ours.year(), theirs.year());
                    assert_eq!(ours.month(), theirs.month());
                    assert_eq!(ours.day(), theirs.day());
                }
            }
        }
    }
}

#[test]
fn numbers_are_read_back_from_the_formatted_date() {
    let date = UploadDate::new(2023, 1, 5).unwrap();
    assert_eq!(date.year_number(), Some(2023));
    assert_eq!(date.month_number(), 1);
    assert_eq!(date.day_number(), 5);
    let date = UploadDate::new(987, 12, 31).unwrap();
    assert_eq!(date.year_number(), Some(987));
    assert_eq!(date.month_number(), 12);
    assert_eq!(date.day_number(), 31);
}

#[test]
fn signed_years_are_read_back() {
    assert_eq!(UploadDate::new(-1, 3, 4).unwrap().year_number(), Some(-1));
    assert_eq!(UploadDate::new(0, 3, 4).unwrap().year_number(), Some(0));
    assert_eq!(UploadDate::new(9999, 3, 4).unwrap().year_number(), Some(9999));
    assert_eq!(UploadDate::new(10000, 3, 4).unwrap().year_number(), Some(10000));
    assert_eq!(UploadDate::new(32767, 3, 4).unwrap().year_number(), Some(32767));
    assert_eq!(UploadDate::new(-32768, 3, 4).unwrap().year_number(), Some(-32768));
}

#[test]
fn years_beyond_i16_are_not_read_back() {
    assert_eq!(UploadDate::new(32768, 1, 1).unwrap().year_number(), None);
    assert_eq!(UploadDate::new(-32769, 1, 1).unwrap().year_number(), None);
    assert_eq!(UploadDate::new(MAX_YEAR, 12, 31).unwrap().year_number(), None);
    assert_eq!(UploadDate::new(MIN_YEAR, 1, 1).unwrap().year_number(), None);
}

#[test]
fn every_day_of_a_leap_year_is_read_back() {
    let mut date = NaiveDate::from_ymd_opt(2024, 1, 1).unwrap();
    while date.year() == 2024 {
        let ours = UploadDate::new(date.year(), date.month(), date.day()).unwrap();
        assert_eq!(ours.year_number(), Some(2024));
        assert_eq!(u32::from(ours.month_number()), date.month());
        assert_eq!(u32::from(ours.day_number()), date.day());
        date = date.succ_opt().unwrap();
    }
}
