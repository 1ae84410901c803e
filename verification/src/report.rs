//! Where the reports go: the names of the files, stamped to the minute, and
//! which of the files found is the latest report.

use vstd::prelude::*;
use vstd::string::*;

use crate::models::views;
use crate::text::{fixed_digits, fixed_digits_text, starts_with};

verus! {

/// The directory of the reports.
pub const OUTPUT_DIR_PATH: &'static str = "output";

/// The file in which the kept categories are cached.
pub const CACHE_FILE_PATH: &'static str = "output/filtered_categories.json";

/// How the name of a coin report begins.
pub const COIN_INFO_FILE_PREFIX: &'static str = "coin_info_";

/// How the name of a change summary begins.
pub const CHANGE_SUMMARY_FILE_PREFIX: &'static str = "change_summary_";

/// A minute of the calendar, in universal time.
#[derive(Debug, Clone, Copy, PartialEq, Eq)]
pub struct MinuteStamp {
    year: u16,
    month: u8,
    day: u8,
    hour: u8,
    minute: u8,
}

/// A stamp, as numbers.
pub struct StampView {
    pub year: nat,
    pub month: nat,
    pub day: nat,
    pub hour: nat,
    pub minute: nat,
}

/// Whether `year` has a 29th of February.
pub open spec fn is_leap_year(year: nat) -> bool {
    year % 4 == 0 && (year % 100 != 0 || year % 400 == 0)
}

/// How many days `month` of `year` has.
pub open spec fn days_in_month(year: nat, month: nat) -> nat {
    if month == 2 {
        if is_leap_year(year) {
            29
        } else {
            28
        }
    } else if month == 4 || month == 6 || month == 9 || month == 11 {
        30
    } else {
        31
    }
}

/// The numbers name a minute of the calendar, in a year of four digits.
pub open spec fn is_minute(stamp: StampView) -> bool {
    &&& stamp.year <= 9999
    &&& 1 <= stamp.month <= 12
    &&& 1 <= stamp.day <= days_in_month(stamp.year, stamp.month)
    &&& stamp.hour < 24
    &&& stamp.minute < 60
}

/// The stamp as it stands in a file name: `YYYY-MM-DD_HH-MM`.
pub open spec fn stamp_text(stamp: StampView) -> Seq<char> {
    fixed_digits(stamp.year, 4) + "-"@ + fixed_digits(stamp.month, 2) + "-"@ + fixed_digits(
        stamp.day,
        2,
    ) + "_"@ + fixed_digits(stamp.hour, 2) + "-"@ + fixed_digits(stamp.minute, 2)
}

/// The path of the coin report written at `stamp`.
pub open spec fn coin_info_path(stamp: StampView) -> Seq<char> {
    "output"@ + "/"@ + "coin_info_"@ + stamp_text(stamp) + ".csv"@
}

/// The path of the change summary written at `stamp`.
pub open spec fn change_summary_path(stamp: StampView) -> Seq<char> {
    "output"@ + "/"@ + "change_summary_"@ + stamp_text(stamp) + ".json"@
}

impl View for MinuteStamp {
    type V = StampView;

    closed spec fn view(&self) -> StampView {
        StampView {
            year: self.year as nat,
            month: self.month as nat,
            day: self.day as nat,
            hour: self.hour as nat,
            minute: self.minute as nat,
        }
    }
}

/// How many days `month` of `year` has.
pub fn month_length(year: u16, month: u8) -> (days: u8)
    ensures
        days == days_in_month(year as nat, month as nat),
{
    if month == 2 {
        if year % 4 == 0 && (year % 100 != 0 || year % 400 == 0) {
            29
        } else {
            28
        }
    } else if month == 4 || month == 6 || month == 9 || month == 11 {
        30
    } else {
        31
    }
}

impl MinuteStamp {
    #[verifier::type_invariant]
    spec fn names_a_minute(&self) -> bool {
        is_minute(self@)
    }

    /// The stamp of the minute that the numbers name, if they name one.
    pub fn new(year: u16, month: u8, day: u8, hour: u8, minute: u8) -> (stamp: Option<MinuteStamp>)
        ensures
            stamp is Some <==> is_minute(
                StampView {
                    year: year as nat,
                    month: month as nat,
                    day: day as nat,
                    hour: hour as nat,
                    minute: minute as nat,
                },
            ),
            stamp matches Some(s) ==> s@ == (StampView {
                year: year as nat,
                month: month as nat,
                day: day as nat,
                hour: hour as nat,
                minute: minute as nat,
            }),
    {
        if year <= 9999 && 1 <= month && month <= 12 && 1 <= day && day <= month_length(year, month)
            && hour < 24 && minute < 60 {
            Some(MinuteStamp { year, month, day, hour, minute })
        } else {
            None
        }
    }

    /// The stamp as it stands in a file name.
    pub fn text(&self) -> (text: String)
        ensures
            text@ == stamp_text(self@),
            is_minute(self@),
    {
        proof {
            use_type_invariant(self);
        }
        let mut text = fixed_digits_text(self.year as u64, 4);
        text.append("-");
        text.append(fixed_digits_text(self.month as u64, 2).as_str());
        text.append("-");
        text.append(fixed_digits_text(self.day as u64, 2).as_str());
        text.append("_");
        text.append(fixed_digits_text(self.hour as u64, 2).as_str());
        text.append("-");
        text.append(fixed_digits_text(self.minute as u64, 2).as_str());
        text
    }
}

/// The path of the coin report written at `stamp`.
pub fn coin_info_file_name(stamp: &MinuteStamp) -> (path: String)
    ensures
        path@ == coin_info_path(stamp@),
{
    let mut path = String::from_str(OUTPUT_DIR_PATH);
    path.append("/");
    path.append(COIN_INFO_FILE_PREFIX);
    path.append(stamp.text().as_str());
    path.append(".csv");
    path
}

/// The path of the change summary written at `stamp`.
pub fn change_summary_file_name(stamp: &MinuteStamp) -> (path: String)
    ensures
        path@ == change_summary_path(stamp@),
{
    let mut path = String::from_str(OUTPUT_DIR_PATH);
    path.append("/");
    path.append(CHANGE_SUMMARY_FILE_PREFIX);
    path.append(stamp.text().as_str());
    path.append(".json");
    path
}

/// A file found in the directory of the reports: its name, and when it was
/// last written, in nanoseconds since the Unix epoch, where that is known.
#[derive(Debug, PartialEq, Eq)]
pub struct ReportEntry {
    pub file_name: String,
    pub modified: Option<i128>,
}

/// A file found, as text and number.
pub struct EntryView {
    pub file_name: Seq<char>,
    pub modified: Option<i128>,
}

impl View for ReportEntry {
    type V = EntryView;

    open spec fn view(&self) -> EntryView {
        EntryView { file_name: self.file_name@, modified: self.modified }
    }
}

/// The file is a coin report, going by its name.
pub open spec fn is_coin_report(entry: EntryView) -> bool {
    "coin_info_"@.is_prefix_of(entry.file_name)
}

/// `a` was written no later than `b`; an unknown time counts as earlier
/// than any known one.
pub open spec fn not_after(a: Option<i128>, b: Option<i128>) -> bool {
    match (a, b) {
        (None, _) => true,
        (Some(_), None) => false,
        (Some(x), Some(y)) => x <= y,
    }
}

/// `chosen` is the latest coin report among the first `upto` entries: no
/// coin report among them was written after it, and of those written at the
/// same time it stands last. It is `None` where none of them is a coin
/// report.
pub open spec fn is_latest(entries: Seq<EntryView>, upto: int, chosen: Option<usize>) -> bool {
    match chosen {
        None => forall|i: int| 0 <= i < upto ==> !is_coin_report(#[trigger] entries[i]),
        Some(k) => {
            &&& k < upto
            &&& is_coin_report(entries[k as int])
            &&& forall|i: int|
                0 <= i < upto && is_coin_report(#[trigger] entries[i]) ==> not_after(
                    entries[i].modified,
                    entries[k as int].modified,
                )
            &&& forall|i: int|
                k < i < upto && is_coin_report(#[trigger] entries[i]) ==> !not_after(
                    entries[k as int].modified,
                    entries[i].modified,
                )
        },
    }
}

/// Whether `a` was written no later than `b`.
pub fn written_not_after(a: Option<i128>, b: Option<i128>) -> (yes: bool)
    ensures
        yes == not_after(a, b),
{
    match (a, b) {
        (None, _) => true,
        (Some(_), None) => false,
        (Some(x), Some(y)) => x <= y,
    }
}

/// Which of `entries` is the latest coin report, if any is one.
pub fn latest_report(entries: &Vec<ReportEntry>) -> (chosen: Option<usize>)
    ensures
        is_latest(views(entries@), entries.len() as int, chosen),
{
    let ghost all = views(entries@);
    let mut chosen: Option<usize> = None;
    let mut i: usize = 0;
    while i < entries.len()
        invariant
            i <= entries.len(),
            all == views(entries@),
            is_latest(all, i as int, chosen),
        decreases entries.len() - i,
    {
        if starts_with(entries[i].file_name.as_str(), COIN_INFO_FILE_PREFIX) {
            match chosen {
                None => {
                    chosen = Some(i);
                },
                Some(k) => {
                    if written_not_after(entries[k].modified, entries[i].modified) {
                        chosen = Some(i);
                    }
                },
            }
        }
        i += 1;
    }
    chosen
}

} // verus!
