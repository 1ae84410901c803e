use market_sifter::report::{
    change_summary_file_name, coin_info_file_name, latest_report, month_length, written_not_after,
    MinuteStamp, ReportEntry, CACHE_FILE_PATH, CHANGE_SUMMARY_FILE_PREFIX, COIN_INFO_FILE_PREFIX,
    OUTPUT_DIR_PATH,
};

fn entry(name: &str, modified: Option<i128>) -> ReportEntry {
    ReportEntry { file_name: name.to_string(), modified }
}

#[test]
fn paths_are_as_the_reports_expect() {
    assert_eq!(OUTPUT_DIR_PATH, "output");
    assert_eq!(CACHE_FILE_PATH, "output/filtered_categories.json");
    assert_eq!(COIN_INFO_FILE_PREFIX, "coin_info_");
    assert_eq!(CHANGE_SUMMARY_FILE_PREFIX, "change_summary_");
}

#[test]
fn stamp_is_written_to_the_minute_with_leading_zeros() {
    let stamp = MinuteStamp::new(2024, 3, 5, 7, 9).unwrap();
    assert_eq!(stamp.text(), "2024-03-05_07-09");
    let late = MinuteStamp::new(9999, 12, 31, 23, 59).unwrap();
    assert_eq!(late.text(), "9999-12-31_23-59");
    let early = MinuteStamp::new(0, 1, 1, 0, 0).unwrap();
    assert_eq!(early.text(), "0000-01-01_00-00");
}

#[test]
fn report_file_names_embed_the_stamp() {
    let stamp = MinuteStamp::new(2024, 11, 30, 18, 4).unwrap();
    assert_eq!(coin_info_file_name(&stamp), "output/coin_info_2024-11-30_18-04.csv");
    assert_eq!(change_summary_file_name(&stamp), "output/change_summary_2024-11-30_18-04.json");
}

#[test]
fn stamp_rejects_what_is_no_minute() {
    assert!(MinuteStamp::new(10000, 1, 1, 0, 0).is_none());
    assert!(MinuteStamp::new(2024, 0, 1, 0, 0).is_none());
    assert!(MinuteStamp::new(2024, 13, 1, 0, 0).is_none());
    assert!(MinuteStamp::new(2024, 1, 0, 0, 0).is_none());
    assert!(MinuteStamp::new(2024, 4, 31, 0, 0).is_none());
    assert!(MinuteStamp::new(2023, 2, 29, 0, 0).is_none());
    assert!(MinuteStamp::new(2024, 2, 29, 0, 0).is_some());
    assert!(MinuteStamp::new(1900, 2, 29, 0, 0).is_none());
    assert!(MinuteStamp::new(2000, 2, 29, 0, 0).is_some());
    assert!(MinuteStamp::new(2024, 1, 1, 24, 0).is_none());
    assert!(MinuteStamp::new(2024, 1, 1, 0, 60).is_none());
}

#[test]
fn month_length_knows_leap_years() {
    assert_eq!(month_length(2024, 2), 29);
    assert_eq!(month_length(2023, 2), 28);
    assert_eq!(month_length(2100, 2), 28);
    assert_eq!(month_length(2024, 4), 30);
    assert_eq!(month_length(2024, 12), 31);
}

#[test]
fn latest_report_is_the_coin_report_written_last() {
    let entries = vec![
        entry("coin_info_2024-01-01_00-00.csv", Some(100)),
        entry("change_summary_2024-01-03_00-00.json", Some(900)),
        entry("coin_info_2024-01-02_00-00.csv", Some(300)),
        entry("filtered_categories.json", Some(1000)),
        entry("coin_info_2023-12-31_00-00.csv", Some(200)),
    ];
    assert_eq!(latest_report(&entries), Some(2));
}

#[test]
fn latest_report_of_no_coin_report_is_none() {
    assert_eq!(latest_report(&vec![]), None);
    let entries = vec![entry("change_summary_x.json", Some(1)), entry("coin_inf", Some(2))];
    assert_eq!(latest_report(&entries), None);
}

#[test]
fn latest_report_takes_the_last_of_equal_times() {
    let entries = vec![
        entry("coin_info_a.csv", Some(5)),
        entry("coin_info_b.csv", Some(5)),
        entry("coin_info_c.csv", None),
    ];
    assert_eq!(latest_report(&entries), Some(1));
    let unknown = vec![entry("coin_info_a.csv", None), entry("coin_info_b.csv", None)];
    assert_eq!(latest_report(&unknown), Some(1));
    let before_epoch = vec![entry("coin_info_a.csv", Some(-5)), entry("coin_info_b.csv", None)];
    assert_eq!(latest_report(&before_epoch), Some(0));
}

#[test]
fn unknown_time_counts_as_earliest() {
    assert!(written_not_after(None, None));
    assert!(written_not_after(None, Some(-1)));
    assert!(!written_not_after(Some(-1), None));
    assert!(written_not_after(Some(3), Some(3)));
    assert!(!written_not_after(Some(4), Some(3)));
}
