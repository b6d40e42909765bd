//! The day on which a gallery was uploaded, and its year, month and day as numbers.

use crate::decimal::{
    lemma_zero_padded_reads_back, parse_i16, parse_u8, parsed_i16, parsed_u8, signed_value,
    zero_padded,
};
use vstd::pervasive::unreached;
use vstd::prelude::*;

verus! {

/// The first year that a date can lie in.
pub const MIN_YEAR: i32 = -262143;

/// The last year that a date can lie in.
pub const MAX_YEAR: i32 = 262142;

/// Whether `year` is a leap year of the proleptic Gregorian calendar.
pub open spec fn is_leap_year(year: int) -> bool {
    year % 4 == 0 && (year % 100 != 0 || year % 400 == 0)
}

/// The number of days of a month.
pub open spec fn days_in_month(year: int, month: int) -> int {
    if month == 2 {
        if is_leap_year(year) {
            29
        } else {
            28
        }
    } else if month == 4 || month == 6 || month == 9 || month == 11 {
        30
    } else {
        31
    }
}

/// Whether the three numbers name a day of the calendar, in a year that dates reach.
pub open spec fn is_calendar_date(year: int, month: int, day: int) -> bool {
    &&& MIN_YEAR <= year <= MAX_YEAR
    &&& 1 <= month <= 12
    &&& 1 <= day <= days_in_month(year, month)
}

/// A year in writing: four digits or more, zero-padded; a sign in front where the year is
/// negative or has more than four digits.
pub open spec fn year_text(year: int) -> Seq<char> {
    if 0 <= year <= 9999 {
        zero_padded(year as nat, 4)
    } else if year < 0 {
        seq!['-'] + zero_padded((-year) as nat, 4)
    } else {
        seq!['+'] + zero_padded(year as nat, 4)
    }
}

/// A month or a day of the month in writing: two digits, zero-padded.
pub open spec fn two_digit_text(number: int) -> Seq<char> {
    zero_padded(number as nat, 2)
}

/// Whether `pattern` is one of the three format patterns in use: `%Y`, `%m`, `%d`.
pub open spec fn is_date_pattern(pattern: Seq<char>) -> bool {
    pattern == "%Y"@ || pattern == "%m"@ || pattern == "%d"@
}

/// What formatting a date by one of the three patterns gives.
pub open spec fn date_text(year: int, month: int, day: int, pattern: Seq<char>) -> Seq<char> {
    if pattern == "%Y"@ {
        year_text(year)
    } else if pattern == "%m"@ {
        two_digit_text(month)
    } else {
        two_digit_text(day)
    }
}

/// Formats midnight UTC of the given day with chrono's `DateTime::format` and the pattern
/// `%Y`, `%m` or `%d`, and collects the result in a string.
///
/// Not proved, but taken from chrono: for `%Y` the result is the year in at least four
/// zero-padded digits, after a `-` where the year is negative and after a `+` where it is above
/// 9999; for `%m` and `%d` it is the month and the day of the month in two zero-padded digits.
/// The day has to exist, as `NaiveDate::from_ymd_opt` makes no date of other numbers.
#[verifier::external_body]
fn format_date(year: i32, month: u32, day: u32, pattern: &str) -> (text: String)
    requires
        is_calendar_date(year as int, month as int, day as int),
        is_date_pattern(pattern@),
    ensures
        text@ == date_text(year as int, month as int, day as int, pattern@),
{
    let date = chrono::NaiveDate::from_ymd_opt(year, month, day).unwrap();
    date.and_time(chrono::NaiveTime::MIN).and_utc().format(pattern).to_string()
}

/// A year in writing reads back as itself where an `i16` holds it, and as nothing otherwise.
pub proof fn lemma_year_text_reads_back(year: int)
    ensures
        parsed_i16(year_text(year)) == if i16::MIN <= year <= i16::MAX {
            Some(year)
        } else {
            None
        },
{
    let text = year_text(year);
    if 0 <= year <= 9999 {
        lemma_zero_padded_reads_back(year as nat, 4);
    } else if year < 0 {
        lemma_zero_padded_reads_back((-year) as nat, 4);
        assert(text.drop_first() =~= zero_padded((-year) as nat, 4));
        assert(text[0] == '-');
    } else {
        lemma_zero_padded_reads_back(year as nat, 4);
        assert(text.drop_first() =~= zero_padded(year as nat, 4));
        assert(text[0] == '+');
    }
}

/// A month or day in writing reads back as itself.
pub proof fn lemma_two_digit_text_reads_back(number: int)
    requires
        0 <= number <= u8::MAX,
    ensures
        parsed_u8(two_digit_text(number)) == Some(number),
{
    lemma_zero_padded_reads_back(number as nat, 2);
}

/// The contents of an [`UploadDate`].
pub struct DateView {
    pub year: int,
    pub month: int,
    pub day: int,
}

/// A day of the proleptic Gregorian calendar. Every value is a day that exists.
#[derive(Clone, Copy, Debug, PartialEq, Eq)]
pub struct UploadDate {
    year: i32,
    month: u32,
    day: u32,
}

impl View for UploadDate {
    type V = DateView;

    closed spec fn view(&self) -> DateView {
        DateView { year: self.year as int, month: self.month as int, day: self.day as int }
    }
}

impl UploadDate {
    #[verifier::type_invariant]
    spec fn exists_in_calendar(&self) -> bool {
        is_calendar_date(self.year as int, self.month as int, self.day as int)
    }

    /// The day with the given year, month (1 to 12) and day of the month (from 1), or `None`
    /// where there is no such day or the year is out of reach.
    pub fn new(year: i32, month: u32, day: u32) -> (date: Option<UploadDate>)
        ensures
            date is Some <==> is_calendar_date(year as int, month as int, day as int),
            date matches Some(d) ==> d@ == (DateView {
                year: year as int,
                month: month as int,
                day: day as int,
            }),
    {
        if year < MIN_YEAR || year > MAX_YEAR || month < 1 || month > 12 || day < 1 {
            return None;
        }
        // 262400 is a multiple of 400, so the sum has the remainders of the year and is positive.
        let shifted: u32 = (year + 262400) as u32;
        let leap = shifted % 4 == 0 && (shifted % 100 != 0 || shifted % 400 == 0);
        let days: u32 = if month == 2 {
            if leap {
                29
            } else {
                28
            }
        } else if month == 4 || month == 6 || month == 9 || month == 11 {
            30
        } else {
            31
        };
        if day > days {
            None
        } else {
            Some(UploadDate { year, month, day })
        }
    }

    /// The year.
    pub fn year(&self) -> (year: i32)
        ensures
            year == self@.year,
    {
        self.year
    }

    /// The month, 1 to 12.
    pub fn month(&self) -> (month: u32)
        ensures
            month == self@.month,
            1 <= month <= 12,
    {
        proof {
            use_type_invariant(self);
        }
        self.month
    }

    /// The day of the month, from 1.
    pub fn day(&self) -> (day: u32)
        ensures
            day == self@.day,
            1 <= day <= days_in_month(self@.year, self@.month),
    {
        proof {
            use_type_invariant(self);
        }
        self.day
    }

    /// The year, written with `%Y` and read back as an `i16`: `None` where no `i16` holds it.
    pub fn year_number(&self) -> (year: Option<i16>)
        ensures
            year == if i16::MIN <= self@.year <= i16::MAX {
                Some(self@.year as i16)
            } else {
                None
            },
    {
        proof {
            use_type_invariant(self);
            lemma_year_text_reads_back(self.year as int);
        }
        let text = format_date(self.year, self.month, self.day, "%Y");
        parse_i16(text.as_str())
    }

    /// The month, written with `%m` and read back as a `u8`.
    pub fn month_number(&self) -> (month: u8)
        ensures
            month == self@.month,
    {
        proof {
            use_type_invariant(self);
            lemma_two_digit_text_reads_back(self.month as int);
            reveal_strlit("%Y");
            reveal_strlit("%m");
            assert("%m"@[1] != "%Y"@[1]);
        }
        let text = format_date(self.year, self.month, self.day, "%m");
        match parse_u8(text.as_str()) {
            Some(month) => month,
            None => unreached(),
        }
    }

    /// The day of the month, written with `%d` and read back as a `u8`.
    pub fn day_number(&self) -> (day: u8)
        ensures
            day == self@.day,
    {
        proof {
            use_type_invariant(self);
            lemma_two_digit_text_reads_back(self.day as int);
            reveal_strlit("%Y");
            reveal_strlit("%m");
            reveal_strlit("%d");
            assert("%d"@[1] != "%Y"@[1] && "%d"@[1] != "%m"@[1]);
        }
        let text = format_date(self.year, self.month, self.day, "%d");
        match parse_u8(text.as_str()) {
            Some(day) => day,
            None => unreached(),
        }
    }
}

} // verus!
