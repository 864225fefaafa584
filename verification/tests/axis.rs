use campsites::date::{Date, MAX_DAYS, MIN_DAYS};
use campsites::render::{fill_in_dates, shortdate};
use chrono::{Datelike, NaiveDate};

fn ymd(year: i32, month: u32, day: u32) -> Date {
    Date::from_ymd(year, month, day).unwrap()
}

#[test]
fn test_fill_in_dates() {
    let mut data = Vec::new();
    data.push(ymd(2020, 1, 1));
    data.push(ymd(2020, 1, 3));

    let filled = fill_in_dates(&data).unwrap();
    assert_eq!(3, filled.len());
    assert_eq!(ymd(2020, 1, 1), filled[0]);
    assert_eq!(ymd(2020, 1, 2), filled[1]);
    assert_eq!(ymd(2020, 1, 3), filled[2]);
}

#[test]
fn no_dates_give_no_axis() {
    assert_eq!(None, fill_in_dates(&Vec::new()));
}

#[test]
fn one_date_is_its_own_axis() {
    let day = ymd(2022, 9, 15);
    assert_eq!(Some(vec![day]), fill_in_dates(&vec![day]));
    assert_eq!(Some(vec![day]), fill_in_dates(&vec![day, day, day]));
}

#[test]
fn axis_ignores_order_and_repeats() {
    let dates = vec![ymd(2022, 3, 2), ymd(2022, 2, 27), ymd(2022, 3, 2), ymd(2022, 2, 28)];
    let axis = fill_in_dates(&dates).unwrap();
    let expected = vec![ymd(2022, 2, 27), ymd(2022, 2, 28), ymd(2022, 3, 1), ymd(2022, 3, 2)];
    assert_eq!(expected, axis);
}

#[test]
fn axis_spans_a_leap_day_and_a_year_end() {
    let axis = fill_in_dates(&vec![ymd(2024, 3, 1), ymd(2023, 12, 30)]).unwrap();
    assert_eq!(63, axis.len());
    assert_eq!(ymd(2023, 12, 30), axis[0]);
    assert_eq!(ymd(2024, 1, 1), axis[2]);
    assert_eq!(ymd(2024, 2, 29), axis[61]);
    assert_eq!(ymd(2024, 3, 1), axis[62]);
    for i in 1..axis.len() {
        assert_eq!(axis[i - 1].days() + 1, axis[i].days());
        assert!(axis[i - 1] < axis[i]);
    }
}

#[test]
fn axis_is_as_long_as_its_span() {
    let first = ymd(2022, 9, 13);
    let last = ymd(2023, 1, 11);
    let axis = fill_in_dates(&vec![last, first]).unwrap();
    assert_eq!((last.days() - first.days() + 1) as usize, axis.len());
    assert_eq!(121, axis.len());
    assert_eq!(first, axis[0]);
    assert_eq!(last, axis[120]);
}

#[test]
fn axis_reaches_the_last_day() {
    let last = Date::from_days(MAX_DAYS).unwrap();
    let before = Date::from_days(MAX_DAYS - 2).unwrap();
    let axis = fill_in_dates(&vec![last, before]).unwrap();
    assert_eq!(3, axis.len());
    assert_eq!(last, axis[2]);
    assert_eq!(None, last.succ());
}

#[test]
fn day_numbers_are_those_of_chrono() {
    assert_eq!(1, ymd(1, 1, 1).days());
    assert_eq!(719_163, ymd(1970, 1, 1).days());
    assert_eq!(-365, ymd(0, 1, 1).days());
    assert_eq!(737_425, ymd(2020, 1, 1).days());
    let date = NaiveDate::from_ymd_opt(2022, 9, 20).unwrap();
    assert_eq!(date.num_days_from_ce(), ymd(2022, 9, 20).days());
}

#[test]
fn range_of_dates_is_that_of_chrono() {
    assert_eq!(NaiveDate::MIN.num_days_from_ce(), MIN_DAYS);
    assert_eq!(NaiveDate::MAX.num_days_from_ce(), MAX_DAYS);
    assert!(NaiveDate::from_num_days_from_ce_opt(MIN_DAYS).is_some());
    assert!(NaiveDate::from_num_days_from_ce_opt(MAX_DAYS).is_some());
    assert!(NaiveDate::from_num_days_from_ce_opt(MIN_DAYS - 1).is_none());
    assert!(NaiveDate::from_num_days_from_ce_opt(MAX_DAYS + 1).is_none());
    assert!(Date::from_days(MIN_DAYS).is_some());
    assert!(Date::from_days(MAX_DAYS).is_some());
    assert_eq!(None, Date::from_days(MIN_DAYS - 1));
    assert_eq!(None, Date::from_days(MAX_DAYS + 1));
    assert_eq!(None, Date::from_days(i32::MAX));
    assert_eq!(None, Date::from_days(i32::MIN));
}

#[test]
fn dates_at_the_ends_of_the_range_have_fields() {
    let first = Date::from_days(MIN_DAYS).unwrap();
    assert_eq!((-262_143, 1, 1), (first.year(), first.month(), first.day()));
    let last = Date::from_days(MAX_DAYS).unwrap();
    assert_eq!((262_142, 12, 31), (last.year(), last.month(), last.day()));
    assert_eq!(Some(first), Date::from_ymd(-262_143, 1, 1));
    assert_eq!(Some(last), Date::from_ymd(262_142, 12, 31));
}

#[test]
fn dates_that_do_not_exist_are_refused() {
    assert_eq!(None, Date::from_ymd(2023, 2, 29));
    assert_eq!(None, Date::from_ymd(2023, 4, 31));
    assert_eq!(None, Date::from_ymd(2023, 0, 1));
    assert_eq!(None, Date::from_ymd(2023, 13, 1));
    assert_eq!(None, Date::from_ymd(2023, 1, 0));
    assert_eq!(None, Date::from_ymd(400_000, 1, 1));
    assert_eq!(None, Date::from_ymd(-400_000, 1, 1));
    assert!(Date::from_ymd(2024, 2, 29).is_some());
}

#[test]
fn fields_of_a_date() {
    let date = ymd(2022, 9, 8);
    assert_eq!(2022, date.year());
    assert_eq!(9, date.month());
    assert_eq!(8, date.day());
    let old = ymd(-308, 3, 14);
    assert_eq!((-308, 3, 14), (old.year(), old.month(), old.day()));
    let by_number = Date::from_days(730_000).unwrap();
    assert_eq!((1999, 9, 3), (by_number.year(), by_number.month(), by_number.day()));
}

#[test]
fn order_of_dates() {
    let a = ymd(2022, 12, 31);
    let b = ymd(2023, 1, 1);
    assert!(a.is_before(&b));
    assert!(!b.is_before(&a));
    assert!(!a.is_before(&a));
    assert_eq!(Some(b), a.succ());
    assert!(a < b);
}

#[test]
fn short_date_is_the_day_of_the_month() {
    assert_eq!("1", shortdate(&ymd(2020, 1, 1)));
    assert_eq!("9", shortdate(&ymd(2022, 12, 9)));
    assert_eq!("15", shortdate(&ymd(2022, 9, 15)));
    assert_eq!("31", shortdate(&ymd(2022, 10, 31)));
    assert_eq!("29", shortdate(&ymd(2024, 2, 29)));
}
