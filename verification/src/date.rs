//! Publish dates: how a post writes one, and how the pages print it.

use crate::text::{
    append, chars_of, decimal, find_from, first_match, parse_number, parsed_number, push_decimal,
    slice_of, string_of,
};
use vstd::prelude::*;

verus! {

/// A publish date as its post states it.
#[derive(Clone, Copy, Debug, PartialEq, Eq, Structural)]
pub struct Date {
    pub day: u32,
    pub month: u32,
    pub year: i32,
}

impl Date {
    /// The month is one of the twelve, and the year has four digits or more.
    pub open spec fn wf(self) -> bool {
        1 <= self.month <= 12 && self.year >= 1000
    }

    /// `self` is a later day than `other`.
    pub open spec fn is_after(self, other: Date) -> bool {
        self.year > other.year || (self.year == other.year && (self.month > other.month || (
        self.month == other.month && self.day > other.day)))
    }

    /// Whether `self` is a later day than `other`.
    pub fn after(&self, other: &Date) -> (later: bool)
        ensures
            later == self.is_after(*other),
    {
        self.year > other.year || (self.year == other.year && (self.month > other.month || (
        self.month == other.month && self.day > other.day)))
    }

    /// The day with its ordinal suffix, the month's name, and the year.
    pub fn parts(&self) -> (parts: (String, String, i32))
        requires
            self.wf(),
        ensures
            parts.0@ == ordinal(self.day as nat),
            parts.1@ == month_name(self.month as int),
            parts.2 == self.year,
    {
        let mut day: Vec<char> = Vec::new();
        push_decimal(&mut day, self.day as u64);
        append(&mut day, &chars_of(suffix(self.day)));
        (string_of(&day), name_of_month(self.month).to_owned(), self.year)
    }
}

/// The English name of a month, counted from 1.
pub open spec fn month_name(month: int) -> Seq<char> {
    if month == 1 {
        "January"@
    } else if month == 2 {
        "February"@
    } else if month == 3 {
        "March"@
    } else if month == 4 {
        "April"@
    } else if month == 5 {
        "May"@
    } else if month == 6 {
        "June"@
    } else if month == 7 {
        "July"@
    } else if month == 8 {
        "August"@
    } else if month == 9 {
        "September"@
    } else if month == 10 {
        "October"@
    } else if month == 11 {
        "November"@
    } else {
        "December"@
    }
}

/// The suffix that makes a day an ordinal: `st`, `nd`, `rd` after a last
/// digit of 1, 2, 3, except where the last two digits are 11, 12, 13; `th`
/// otherwise.
pub open spec fn ordinal_suffix(day: nat) -> Seq<char> {
    let last = day % 10;
    let last_two = day % 100;
    if last == 1 && last_two != 11 {
        "st"@
    } else if last == 2 && last_two != 12 {
        "nd"@
    } else if last == 3 && last_two != 13 {
        "rd"@
    } else {
        "th"@
    }
}

/// A day as an ordinal: `1st`, `22nd`, `13th`.
pub open spec fn ordinal(day: nat) -> Seq<char> {
    decimal(day) + ordinal_suffix(day)
}

/// The date as a content page prints it: `3rd of May, 2021`.
pub open spec fn post_date_text(date: Date) -> Seq<char> {
    ordinal(date.day as nat) + " of "@ + month_name(date.month as int) + ", "@ + decimal(
        date.year as nat,
    )
}

/// The date as the listing prints it: `3rd May 2021`.
pub open spec fn list_date_text(date: Date) -> Seq<char> {
    ordinal(date.day as nat) + " "@ + month_name(date.month as int) + " "@ + decimal(
        date.year as nat,
    )
}

/// The date that `text` writes as day, month and year in decimal with `/`
/// between them, if it writes one: the three numbers fit 32 bits, the month
/// is one of the twelve, and the year has four digits or more.
pub open spec fn parsed_date(text: Seq<char>) -> Option<Date> {
    match first_match(text, "/"@, 0) {
        Some(first) => match first_match(text, "/"@, first + 1) {
            Some(second) => if first_match(text, "/"@, second + 1) is None {
                date_of_numbers(
                    parsed_number(text.subrange(0, first)),
                    parsed_number(text.subrange(first + 1, second)),
                    parsed_number(text.subrange(second + 1, text.len() as int)),
                )
            } else {
                None
            },
            None => None,
        },
        None => None,
    }
}

/// The date of three numbers read from a post, if they make one.
pub open spec fn date_of_numbers(day: Option<nat>, month: Option<nat>, year: Option<nat>) -> Option<
    Date,
> {
    match (day, month, year) {
        (Some(d), Some(m), Some(y)) => if d <= u32::MAX && 1 <= m <= 12 && 1000 <= y <= i32::MAX {
            Some(Date { day: d as u32, month: m as u32, year: y as i32 })
        } else {
            None
        },
        _ => None,
    }
}

/// The English name of the month `month`, counted from 1.
fn name_of_month(month: u32) -> (name: &'static str)
    ensures
        name@ == month_name(month as int),
{
    if month == 1 {
        "January"
    } else if month == 2 {
        "February"
    } else if month == 3 {
        "March"
    } else if month == 4 {
        "April"
    } else if month == 5 {
        "May"
    } else if month == 6 {
        "June"
    } else if month == 7 {
        "July"
    } else if month == 8 {
        "August"
    } else if month == 9 {
        "September"
    } else if month == 10 {
        "October"
    } else if month == 11 {
        "November"
    } else {
        "December"
    }
}

/// The suffix that makes `day` an ordinal.
fn suffix(day: u32) -> (text: &'static str)
    ensures
        text@ == ordinal_suffix(day as nat),
{
    let last: u32 = day % 10;
    let last_two: u32 = day % 100;
    if last == 1 && last_two != 11 {
        "st"
    } else if last == 2 && last_two != 12 {
        "nd"
    } else if last == 3 && last_two != 13 {
        "rd"
    } else {
        "th"
    }
}

/// Reads a date written as `day/month/year`.
pub fn parse_date(text: &Vec<char>) -> (date: Option<Date>)
    ensures
        date == parsed_date(text@),
        date matches Some(d) ==> d.wf(),
{
    let slash = chars_of("/");
    let first: usize = match find_from(text, &slash, 0) {
        Some(at) => at,
        None => {
            return None;
        },
    };
    proof {
        reveal_strlit("/");
    }
    let second: usize = match find_from(text, &slash, first + 1) {
        Some(at) => at,
        None => {
            return None;
        },
    };
    if find_from(text, &slash, second + 1).is_some() {
        return None;
    }
    let day = parse_number(&slice_of(text, 0, first));
    let month = parse_number(&slice_of(text, first + 1, second));
    let year = parse_number(&slice_of(text, second + 1, text.len()));
    match (day, month, year) {
        (Some(d), Some(m), Some(y)) => {
            if 1 <= m && m <= 12 && 1000 <= y && y <= 0x7fff_ffff {
                Some(Date { day: d, month: m, year: y as i32 })
            } else {
                None
            }
        },
        _ => None,
    }
}

/// The date as a content page prints it.
pub fn post_date(date: &Date) -> (text: Vec<char>)
    requires
        date.wf(),
    ensures
        text@ == post_date_text(*date),
{
    let mut text: Vec<char> = Vec::new();
    push_decimal(&mut text, date.day as u64);
    append(&mut text, &chars_of(suffix(date.day)));
    append(&mut text, &chars_of(" of "));
    append(&mut text, &chars_of(name_of_month(date.month)));
    append(&mut text, &chars_of(", "));
    push_decimal(&mut text, date.year as u64);
    text
}

/// The date as the listing prints it.
pub fn list_date(date: &Date) -> (text: Vec<char>)
    requires
        date.wf(),
    ensures
        text@ == list_date_text(*date),
{
    let mut text: Vec<char> = Vec::new();
    push_decimal(&mut text, date.day as u64);
    append(&mut text, &chars_of(suffix(date.day)));
    append(&mut text, &chars_of(" "));
    append(&mut text, &chars_of(name_of_month(date.month)));
    append(&mut text, &chars_of(" "));
    push_decimal(&mut text, date.year as u64);
    text
}

} // verus!
