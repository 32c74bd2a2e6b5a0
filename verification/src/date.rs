//! The date model: a calendar triple `YYYY-MM-DD`, ordered
//! lexicographically, which is chronological order for calendar dates.
//! No calendar validity is checked beyond each component fitting its width.

use vstd::prelude::*;

use core::cmp::Ordering;

use crate::parse::date_text_spec;
use crate::text::{digits_val, is_numeric_within, split_spec, text_view};

verus! {

/// A parsed release date: year, month and day, each read as a plain
/// number; component values are not range-checked beyond their width.
#[derive(Clone, Copy, Debug, PartialEq, Eq, Hash, Structural)]
pub struct Date {
    pub year: u16,
    pub month: u8,
    pub day: u8,
}

/// What parsing a date string yields: the text cut at every `-` must give
/// exactly three digit-string tokens, the year within `u16`, month and day
/// within `u8`.
pub open spec fn date_parse_spec(s: Seq<char>) -> Option<Date> {
    let parts = split_spec(s, '-');
    if parts.len() == 3 && is_numeric_within(parts[0], u16::MAX as int) && is_numeric_within(
        parts[1],
        u8::MAX as int,
    ) && is_numeric_within(parts[2], u8::MAX as int) {
        Some(
            Date {
                year: digits_val(parts[0]) as u16,
                month: digits_val(parts[1]) as u8,
                day: digits_val(parts[2]) as u8,
            },
        )
    } else {
        None
    }
}

/// `a` at most `b` in the calendar order.
pub open spec fn date_le(a: Date, b: Date) -> bool {
    a.year < b.year || (a.year == b.year && (a.month < b.month || (a.month == b.month && a.day
        <= b.day)))
}

/// What reading the date of a toolchain from its verbose version text
/// yields: the date string the verbose parse finds, parsed as a triple.
pub open spec fn date_read_spec(out: Option<Seq<char>>) -> Option<Date> {
    match date_text_spec(out) {
        Some(t) => date_parse_spec(t),
        None => None,
    }
}

fn parse_u8_str(s: &str) -> (r: Option<u8>)
    ensures
        match r {
            Some(v) => is_numeric_within(s@, u8::MAX as int) && v as int == digits_val(s@),
            None => !is_numeric_within(s@, u8::MAX as int),
        },
{
    match crate::text::parse_u16_str(s) {
        Some(v) => {
            if v <= 255 {
                Some(v as u8)
            } else {
                None
            }
        },
        None => None,
    }
}

impl Date {
    /// Reads `date` as a calendar triple, as `date_parse_spec` says.
    pub fn parse(date: &str) -> (r: Option<Date>)
        ensures
            r == date_parse_spec(date@),
    {
        let parts = crate::text::split_str(date, '-');
        if parts.len() != 3 {
            return None;
        }
        proof {
            assert(parts[0]@ == parts.deep_view()[0]);
            assert(parts[1]@ == parts.deep_view()[1]);
            assert(parts[2]@ == parts.deep_view()[2]);
        }
        let year = crate::text::parse_u16_str(parts[0]);
        let month = parse_u8_str(parts[1]);
        let day = parse_u8_str(parts[2]);
        match (year, month, day) {
            (Some(y), Some(m), Some(d)) => Some(Date { year: y, month: m, day: d }),
            _ => None,
        }
    }

    /// Reads the release date out of a toolchain's verbose version text, or
    /// `None` when the text is absent or yields no parseable date.
    pub fn read(verbose_output: Option<&str>) -> (r: Option<Date>)
        ensures
            r == date_read_spec(text_view(verbose_output)),
    {
        let text = match verbose_output {
            Some(t) => t,
            None => {
                return None;
            },
        };
        let (_version, date) = crate::parse::version_and_date_from_rustc_verbose_version(text);
        match date {
            Some(d) => Date::parse(d.as_str()),
            None => None,
        }
    }
}

impl PartialOrd for Date {
    fn partial_cmp(&self, other: &Date) -> (r: Option<Ordering>) {
        if self.year != other.year {
            if self.year < other.year {
                Some(Ordering::Less)
            } else {
                Some(Ordering::Greater)
            }
        } else if self.month != other.month {
            if self.month < other.month {
                Some(Ordering::Less)
            } else {
                Some(Ordering::Greater)
            }
        } else if self.day != other.day {
            if self.day < other.day {
                Some(Ordering::Less)
            } else {
                Some(Ordering::Greater)
            }
        } else {
            Some(Ordering::Equal)
        }
    }
}

impl vstd::std_specs::cmp::PartialOrdSpecImpl for Date {
    open spec fn obeys_partial_cmp_spec() -> bool {
        true
    }

    open spec fn partial_cmp_spec(&self, other: &Date) -> Option<Ordering> {
        if date_le(*self, *other) && !date_le(*other, *self) {
            Some(Ordering::Less)
        } else if date_le(*self, *other) && date_le(*other, *self) {
            Some(Ordering::Equal)
        } else {
            Some(Ordering::Greater)
        }
    }
}

/// The calendar comparison is a total order: reflexive, antisymmetric,
/// transitive, and total.
pub proof fn lemma_date_order_total(a: Date, b: Date, c: Date)
    ensures
        date_le(a, a),
        date_le(a, b) && date_le(b, a) ==> a == b,
        date_le(a, b) && date_le(b, c) ==> date_le(a, c),
        date_le(a, b) || date_le(b, a),
{
}

} // verus!
