use everygarf::dates::{
    date_from_filename, date_month_to_string, first, format_date, get_dates_between,
    get_existing_dates, latest_from, missing_dates, next_date, prev_date, today, Date,
};

fn d(year: u32, month: u32, day: u32) -> Date {
    Date { year, month, day }
}

#[test]
fn date_range_over_leap_february() {
    let dates = get_dates_between(d(2020, 2, 27), d(2020, 3, 2));
    assert_eq!(
        dates,
        vec![d(2020, 2, 27), d(2020, 2, 28), d(2020, 2, 29), d(2020, 3, 1), d(2020, 3, 2)]
    );
    // Strictly ascending, no duplicates, endpoints included.
    for w in dates.windows(2) {
        assert!(
            (w[0].year, w[0].month, w[0].day) < (w[1].year, w[1].month, w[1].day),
            "range must ascend strictly"
        );
    }
    assert_eq!(dates.first(), Some(&d(2020, 2, 27)));
    assert_eq!(dates.last(), Some(&d(2020, 3, 2)));
}

#[test]
fn date_range_over_year_end() {
    let dates = get_dates_between(d(1999, 12, 30), d(2000, 1, 2));
    assert_eq!(
        dates,
        vec![d(1999, 12, 30), d(1999, 12, 31), d(2000, 1, 1), d(2000, 1, 2)]
    );
}

#[test]
fn date_range_single_day_and_empty() {
    assert_eq!(get_dates_between(d(2023, 5, 1), d(2023, 5, 1)), vec![d(2023, 5, 1)]);
    assert_eq!(get_dates_between(d(2023, 5, 2), d(2023, 5, 1)), vec![]);
}

#[test]
fn next_and_prev_date_roll_over() {
    assert_eq!(next_date(d(2021, 2, 28)), d(2021, 3, 1));
    assert_eq!(next_date(d(2020, 2, 28)), d(2020, 2, 29));
    assert_eq!(next_date(d(2020, 12, 31)), d(2021, 1, 1));
    assert_eq!(prev_date(d(2021, 3, 1)), d(2021, 2, 28));
    assert_eq!(prev_date(d(2021, 1, 1)), d(2020, 12, 31));
}

#[test]
fn date_from_filename_parses_the_convention() {
    assert_eq!(date_from_filename("2020-01-01.png"), Some(d(2020, 1, 1)));
    assert_eq!(date_from_filename("some/dir/2020-01-01.png"), Some(d(2020, 1, 1)));
    assert_eq!(date_from_filename("2020-01-01"), Some(d(2020, 1, 1)));
    assert_eq!(date_from_filename("notes.txt"), None);
    assert_eq!(date_from_filename("2020-13-40.png"), None);
    assert_eq!(date_from_filename("2020-01.png"), None);
    assert_eq!(date_from_filename(""), None);
    assert_eq!(date_from_filename("2019-02-29.png"), None);
    assert_eq!(date_from_filename("2020-02-29.png"), Some(d(2020, 2, 29)));
}

#[test]
fn existing_dates_skip_unparseable_names() {
    let names = vec![
        "notes.txt".to_string(),
        "2020-01-01.png".to_string(),
        "2020-13-40.png".to_string(),
        "2021-06-19.gif".to_string(),
    ];
    let dates = get_existing_dates(&names);
    assert_eq!(dates, vec![d(2020, 1, 1), d(2021, 6, 19)]);
}

#[test]
fn missing_dates_is_set_difference_in_order() {
    let all = get_dates_between(d(2023, 5, 1), d(2023, 5, 5));
    let existing = vec![d(2023, 5, 2), d(2023, 5, 4), d(2024, 1, 1)];
    let missing = missing_dates(&all, &existing);
    assert_eq!(missing, vec![d(2023, 5, 1), d(2023, 5, 3), d(2023, 5, 5)]);
}

#[test]
fn first_date_is_the_first_comic() {
    assert_eq!(first(), d(1978, 6, 19));
}

#[test]
fn latest_from_respects_publish_time() {
    let today = d(2023, 5, 1);
    assert_eq!(latest_from(today, 7 * 3600 + 1), d(2023, 5, 1));
    assert_eq!(latest_from(today, 7 * 3600), d(2023, 4, 30));
    assert_eq!(latest_from(today, 0), d(2023, 4, 30));
}

#[test]
fn clock_reports_a_plausible_today() {
    let now = today().expect("the clock should report a date in range");
    assert!(now.year >= 2020 && now.year <= 9999);
    assert!((1..=12).contains(&now.month));
    let latest = everygarf::dates::latest().expect("a latest date should exist");
    assert!(latest.year >= 2020);
}

#[test]
fn month_names_match() {
    assert_eq!(date_month_to_string(d(2020, 1, 5)), "January");
    assert_eq!(date_month_to_string(d(2020, 6, 5)), "June");
    assert_eq!(date_month_to_string(d(2020, 12, 5)), "December");
}

#[test]
fn format_date_pads_fields() {
    assert_eq!(format_date(d(2020, 1, 2)), "2020-01-02");
    assert_eq!(format_date(d(978, 11, 30)), "0978-11-30");
}
