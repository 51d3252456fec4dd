//! Timestamps in the 14-digit form of the Wayback Machine, and the smaller
//! facilities shared by the clients.

use crate::text::{
    all_digits, digits_at, digits_value, fixed_digits, is_digit, lemma_digits_value,
    lemma_fixed_digits, padded, pow10, Order,
};
use vstd::prelude::*;
use vstd::string::*;

pub mod observe;
pub mod redirect;
pub mod retries;

verus! {

/// A moment in time to the second, in UTC, as the Wayback Machine records
/// it for a capture.
#[derive(Clone, Copy, Debug, PartialEq, Eq, Structural, PartialOrd, Ord, Hash)]
pub struct Timestamp {
    pub year: u16,
    pub month: u8,
    pub day: u8,
    pub hour: u8,
    pub minute: u8,
    pub second: u8,
}

/// Whether `year` is a leap year of the Gregorian calendar.
pub open spec fn is_leap_year(year: int) -> bool {
    (year % 4 == 0 && year % 100 != 0) || year % 400 == 0
}

/// The number of days of a month; zero where `month` is not one.
pub open spec fn days_in_month(year: int, month: int) -> int {
    if month == 1 || month == 3 || month == 5 || month == 7 || month == 8 || month == 10 || month
        == 12 {
        31
    } else if month == 4 || month == 6 || month == 9 || month == 11 {
        30
    } else if month == 2 {
        if is_leap_year(year) {
            29
        } else {
            28
        }
    } else {
        0
    }
}

/// The 14 digits of a timestamp: year, month, day, hour, minute, second.
pub open spec fn timestamp_text(t: Timestamp) -> Seq<char> {
    fixed_digits(t.year as nat, 4) + fixed_digits(t.month as nat, 2) + fixed_digits(
        t.day as nat,
        2,
    ) + fixed_digits(t.hour as nat, 2) + fixed_digits(t.minute as nat, 2) + fixed_digits(
        t.second as nat,
        2,
    )
}

/// The fields that 14 digits denote, read as year, month, day, hour, minute
/// and second.
pub open spec fn timestamp_fields(s: Seq<char>) -> Timestamp {
    Timestamp {
        year: digits_value(s.subrange(0, 4)) as u16,
        month: digits_value(s.subrange(4, 6)) as u8,
        day: digits_value(s.subrange(6, 8)) as u8,
        hour: digits_value(s.subrange(8, 10)) as u8,
        minute: digits_value(s.subrange(10, 12)) as u8,
        second: digits_value(s.subrange(12, 14)) as u8,
    }
}

/// Whether `s` is a timestamp: 14 digits that name a moment that exists.
pub open spec fn is_timestamp_text(s: Seq<char>) -> bool {
    &&& s.len() == 14
    &&& all_digits(s)
    &&& timestamp_fields(s).is_valid()
}

impl Timestamp {
    /// Whether the fields name a moment that exists: a day of the Gregorian
    /// calendar in the years 0 to 9999 and a time of day. The second may be
    /// 60, which names a leap second; it comes after second 59 of its
    /// minute and before the next minute.
    pub open spec fn is_valid(&self) -> bool {
        &&& self.year <= 9999
        &&& 1 <= self.month <= 12
        &&& 1 <= self.day <= days_in_month(self.year as int, self.month as int)
        &&& self.hour < 24
        &&& self.minute < 60
        &&& self.second <= 60
    }

    /// Whether `self` is earlier than `other`.
    pub open spec fn is_before(&self, other: &Timestamp) -> bool {
        self.year < other.year || (self.year == other.year && (self.month < other.month || (
        self.month == other.month && (self.day < other.day || (self.day == other.day && (self.hour
            < other.hour || (self.hour == other.hour && (self.minute < other.minute || (
        self.minute == other.minute && self.second < other.second)))))))))
    }

    /// Builds a timestamp, or nothing where the fields name no moment.
    pub fn new(year: u16, month: u8, day: u8, hour: u8, minute: u8, second: u8) -> (made: Option<
        Timestamp,
    >)
        ensures
            made == (if (Timestamp { year, month, day, hour, minute, second }).is_valid() {
                Some(Timestamp { year, month, day, hour, minute, second })
            } else {
                None
            }),
    {
        if year > 9999 || month < 1 || month > 12 || hour >= 24 || minute >= 60 || second > 60 {
            return None;
        }
        let leap = (year % 4 == 0 && year % 100 != 0) || year % 400 == 0;
        let days: u8 = if month == 2 {
            if leap {
                29
            } else {
                28
            }
        } else if month == 4 || month == 6 || month == 9 || month == 11 {
            30
        } else {
            31
        };
        if day < 1 || day > days {
            return None;
        }
        Some(Timestamp { year, month, day, hour, minute, second })
    }

    /// Compares two timestamps by time.
    pub fn compare(&self, other: &Timestamp) -> (order: Order)
        ensures
            match order {
                Order::Less => self.is_before(other),
                Order::Equal => *self == *other,
                Order::Greater => other.is_before(self),
            },
    {
        if self.year != other.year {
            if self.year < other.year {
                Order::Less
            } else {
                Order::Greater
            }
        } else if self.month != other.month {
            if self.month < other.month {
                Order::Less
            } else {
                Order::Greater
            }
        } else if self.day != other.day {
            if self.day < other.day {
                Order::Less
            } else {
                Order::Greater
            }
        } else if self.hour != other.hour {
            if self.hour < other.hour {
                Order::Less
            } else {
                Order::Greater
            }
        } else if self.minute != other.minute {
            if self.minute < other.minute {
                Order::Less
            } else {
                Order::Greater
            }
        } else if self.second != other.second {
            if self.second < other.second {
                Order::Less
            } else {
                Order::Greater
            }
        } else {
            Order::Equal
        }
    }
}

/// The six runs of a timestamp's digits, joined, are the timestamp's text.
proof fn lemma_runs_join(s: Seq<char>)
    requires
        s.len() == 14,
    ensures
        s.subrange(0, 4) + s.subrange(4, 6) + s.subrange(6, 8) + s.subrange(8, 10) + s.subrange(
            10,
            12,
        ) + s.subrange(12, 14) == s,
{
    assert(s.subrange(0, 4) + s.subrange(4, 6) + s.subrange(6, 8) + s.subrange(8, 10)
        + s.subrange(10, 12) + s.subrange(12, 14) =~= s);
}

/// A run of digits taken out of digits consists of digits.
proof fn lemma_run_of_digits(s: Seq<char>, from: int, to: int)
    requires
        all_digits(s),
        0 <= from <= to <= s.len(),
    ensures
        all_digits(s.subrange(from, to)),
{
    let run = s.subrange(from, to);
    assert forall|i: int| 0 <= i < run.len() implies is_digit(#[trigger] run[i]) by {
        assert(run[i] == s[from + i]);
    }
}

/// Fourteen digits are the text of the fields they denote.
pub proof fn lemma_text_of_fields(s: Seq<char>)
    requires
        s.len() == 14,
        all_digits(s),
    ensures
        timestamp_text(timestamp_fields(s)) == s,
{
    reveal_with_fuel(pow10, 5);
    lemma_run_of_digits(s, 0, 4);
    lemma_run_of_digits(s, 4, 6);
    lemma_run_of_digits(s, 6, 8);
    lemma_run_of_digits(s, 8, 10);
    lemma_run_of_digits(s, 10, 12);
    lemma_run_of_digits(s, 12, 14);
    lemma_digits_value(s.subrange(0, 4));
    lemma_digits_value(s.subrange(4, 6));
    lemma_digits_value(s.subrange(6, 8));
    lemma_digits_value(s.subrange(8, 10));
    lemma_digits_value(s.subrange(10, 12));
    lemma_digits_value(s.subrange(12, 14));
    lemma_runs_join(s);
}

/// The text of a valid timestamp is a timestamp, and denotes it.
pub proof fn lemma_timestamp_round_trip(t: Timestamp)
    requires
        t.is_valid(),
    ensures
        is_timestamp_text(timestamp_text(t)),
        timestamp_fields(timestamp_text(t)) == t,
{
    reveal_with_fuel(pow10, 5);
    let s = timestamp_text(t);
    lemma_fixed_digits(t.year as nat, 4);
    lemma_fixed_digits(t.month as nat, 2);
    lemma_fixed_digits(t.day as nat, 2);
    lemma_fixed_digits(t.hour as nat, 2);
    lemma_fixed_digits(t.minute as nat, 2);
    lemma_fixed_digits(t.second as nat, 2);
    assert(s.len() == 14);
    assert(s.subrange(0, 4) =~= fixed_digits(t.year as nat, 4));
    assert(s.subrange(4, 6) =~= fixed_digits(t.month as nat, 2));
    assert(s.subrange(6, 8) =~= fixed_digits(t.day as nat, 2));
    assert(s.subrange(8, 10) =~= fixed_digits(t.hour as nat, 2));
    assert(s.subrange(10, 12) =~= fixed_digits(t.minute as nat, 2));
    assert(s.subrange(12, 14) =~= fixed_digits(t.second as nat, 2));
    assert forall|i: int| 0 <= i < s.len() implies is_digit(#[trigger] s[i]) by {
        if i < 4 {
            assert(s[i] == s.subrange(0, 4)[i]);
        } else if i < 6 {
            assert(s[i] == s.subrange(4, 6)[i - 4]);
        } else if i < 8 {
            assert(s[i] == s.subrange(6, 8)[i - 6]);
        } else if i < 10 {
            assert(s[i] == s.subrange(8, 10)[i - 8]);
        } else if i < 12 {
            assert(s[i] == s.subrange(10, 12)[i - 10]);
        } else {
            assert(s[i] == s.subrange(12, 14)[i - 12]);
        }
    }
}

/// Parses a 14-digit Wayback Machine timestamp.
pub fn parse_timestamp(input: &str) -> (parsed: Option<Timestamp>)
    ensures
        parsed is Some <==> is_timestamp_text(input@),
        parsed matches Some(t) ==> t == timestamp_fields(input@) && t.is_valid() && timestamp_text(
            t,
        ) == input@,
{
    if !input.is_ascii() {
        proof {
            let i = choose|i: int|
                0 <= i < input@.len() && !('\0' <= #[trigger] input@[i] <= '\u{7f}');
            assert(!is_digit(input@[i]));
        }
        return None;
    }
    proof {
        is_ascii_spec_bytes(input);
    }
    if input.as_bytes().len() != 14 {
        return None;
    }
    let year = digits_at(input, 0, 4);
    let month = digits_at(input, 4, 6);
    let day = digits_at(input, 6, 8);
    let hour = digits_at(input, 8, 10);
    let minute = digits_at(input, 10, 12);
    let second = digits_at(input, 12, 14);
    proof {
        reveal_with_fuel(pow10, 5);
        if all_digits(input@) {
            lemma_run_of_digits(input@, 0, 4);
            lemma_run_of_digits(input@, 4, 6);
            lemma_run_of_digits(input@, 6, 8);
            lemma_run_of_digits(input@, 8, 10);
            lemma_run_of_digits(input@, 10, 12);
            lemma_run_of_digits(input@, 12, 14);
            lemma_text_of_fields(input@);
        }
        if all_digits(input@.subrange(0, 4)) && all_digits(input@.subrange(4, 6)) && all_digits(
            input@.subrange(6, 8),
        ) && all_digits(input@.subrange(8, 10)) && all_digits(input@.subrange(10, 12))
            && all_digits(input@.subrange(12, 14)) {
            lemma_digits_value(input@.subrange(0, 4));
            lemma_digits_value(input@.subrange(4, 6));
            lemma_digits_value(input@.subrange(6, 8));
            lemma_digits_value(input@.subrange(8, 10));
            lemma_digits_value(input@.subrange(10, 12));
            lemma_digits_value(input@.subrange(12, 14));
            assert forall|i: int| 0 <= i < 14 implies is_digit(#[trigger] input@[i]) by {
                if i < 4 {
                    assert(input@[i] == input@.subrange(0, 4)[i]);
                } else if i < 6 {
                    assert(input@[i] == input@.subrange(4, 6)[i - 4]);
                } else if i < 8 {
                    assert(input@[i] == input@.subrange(6, 8)[i - 6]);
                } else if i < 10 {
                    assert(input@[i] == input@.subrange(8, 10)[i - 8]);
                } else if i < 12 {
                    assert(input@[i] == input@.subrange(10, 12)[i - 10]);
                } else {
                    assert(input@[i] == input@.subrange(12, 14)[i - 12]);
                }
            }
            lemma_text_of_fields(input@);
        }
    }
    match (year, month, day, hour, minute, second) {
        (Some(y), Some(mo), Some(d), Some(h), Some(mi), Some(s)) => Timestamp::new(
            y as u16,
            mo as u8,
            d as u8,
            h as u8,
            mi as u8,
            s as u8,
        ),
        _ => None,
    }
}

/// Writes a timestamp as 14 digits.
pub fn to_timestamp(input: &Timestamp) -> (text: String)
    ensures
        text@ == timestamp_text(*input),
        text@.len() == 14,
{
    proof {
        lemma_fixed_digits(input.year as nat, 4);
        lemma_fixed_digits(input.month as nat, 2);
        lemma_fixed_digits(input.day as nat, 2);
        lemma_fixed_digits(input.hour as nat, 2);
        lemma_fixed_digits(input.minute as nat, 2);
        lemma_fixed_digits(input.second as nat, 2);
    }
    let mut text = padded(input.year as u64, 4);
    text.append(padded(input.month as u64, 2).as_str());
    text.append(padded(input.day as u64, 2).as_str());
    text.append(padded(input.hour as u64, 2).as_str());
    text.append(padded(input.minute as u64, 2).as_str());
    text.append(padded(input.second as u64, 2).as_str());
    text
}

} // verus!
