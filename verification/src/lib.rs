//! Checks which version of a compiler toolchain is installed, by parsing the
//! text the compiler prints when asked for its verbose version.
//!
//! The crate itself performs no process invocation: every public operation
//! takes the raw verbose version text (or `None`, when the caller could not
//! obtain it) and degrades to `None` whenever any step of the parse fails.
//! Callers that want to query a live toolchain run the compiler themselves
//! and hand the captured text in.

use vstd::prelude::*;

pub mod channel;
pub mod date;
pub mod parse;
pub mod text;
pub mod version;

pub use channel::Channel;
pub use date::Date;
pub use parse::{version_and_date_from_rustc_version, version_and_date_from_rustc_verbose_version};
pub use version::Version;

use crate::channel::channel_read_spec;
use crate::date::{date_le, date_parse_spec, date_read_spec};
use crate::parse::verbose_parse_spec;
use crate::text::text_view;
use crate::version::{version_le, version_parse_spec, version_read_spec};

verus! {

/// What reading the whole triple yields: both raw strings must be present
/// in the verbose text, and the version and date strings must both parse;
/// classification of the version string cannot fail on its own.
pub open spec fn triple_spec(out: Option<Seq<char>>) -> Option<(Version, Channel, Date)> {
    match out {
        None => None,
        Some(s) => {
            let vd = verbose_parse_spec(s);
            match (vd.0, vd.1) {
                (Some(vs), Some(ds)) => match (version_parse_spec(vs), date_parse_spec(ds)) {
                    (Some(v), Some(d)) => Some((v, crate::channel::channel_parse_spec(vs), d)),
                    _ => None,
                },
                _ => None,
            }
        },
    }
}

/// Reads the triple of [`Version`], [`Channel`] and [`Date`] out of a
/// toolchain's verbose version text.
///
/// Returns `None` when the text is absent, when either raw string cannot be
/// found in it, or when the version or the date string does not parse.
pub fn triple(verbose_output: Option<&str>) -> (r: Option<(Version, Channel, Date)>)
    ensures
        r == triple_spec(text_view(verbose_output)),
{
    let text = match verbose_output {
        Some(t) => t,
        None => {
            return None;
        },
    };
    let (version_str, date_str) = parse::version_and_date_from_rustc_verbose_version(text);
    let version_str = match version_str {
        Some(v) => v,
        None => {
            return None;
        },
    };
    let date_str = match date_str {
        Some(d) => d,
        None => {
            return None;
        },
    };
    match Version::parse(version_str.as_str()) {
        Some(version) => match Channel::parse(version_str.as_str()) {
            Some(channel) => match Date::parse(date_str.as_str()) {
                Some(date) => Some((version, channel, date)),
                None => None,
            },
            None => None,
        },
        None => None,
    }
}

/// What a minimum-date query yields: absent unless both the toolchain's
/// date and the bound parse; then whether the toolchain's date is on or
/// after the bound.
pub open spec fn is_min_date_spec(out: Option<Seq<char>>, bound: Seq<char>) -> Option<bool> {
    match (date_read_spec(out), date_parse_spec(bound)) {
        (Some(cur), Some(b)) => Some(date_le(b, cur)),
        _ => None,
    }
}

/// Checks that the toolchain whose verbose version text is given was
/// released **on or after** `min_date`, which must be in `YYYY-MM-DD` form.
pub fn is_min_date(verbose_output: Option<&str>, min_date: &str) -> (r: Option<bool>)
    ensures
        r == is_min_date_spec(text_view(verbose_output), min_date@),
{
    match (Date::read(verbose_output), Date::parse(min_date)) {
        (Some(cur), Some(bound)) => Some(cur >= bound),
        _ => None,
    }
}

/// What a maximum-date query yields: absent unless both dates parse; then
/// whether the toolchain's date is on or before the bound.
pub open spec fn is_max_date_spec(out: Option<Seq<char>>, bound: Seq<char>) -> Option<bool> {
    match (date_read_spec(out), date_parse_spec(bound)) {
        (Some(cur), Some(b)) => Some(date_le(cur, b)),
        _ => None,
    }
}

/// Checks that the toolchain whose verbose version text is given was
/// released **on or before** `max_date`, which must be in `YYYY-MM-DD` form.
pub fn is_max_date(verbose_output: Option<&str>, max_date: &str) -> (r: Option<bool>)
    ensures
        r == is_max_date_spec(text_view(verbose_output), max_date@),
{
    match (Date::read(verbose_output), Date::parse(max_date)) {
        (Some(cur), Some(bound)) => Some(cur <= bound),
        _ => None,
    }
}

/// What an exact-date query yields: absent unless both dates parse; then
/// whether the two triples are the same.
pub open spec fn is_exact_date_spec(out: Option<Seq<char>>, bound: Seq<char>) -> Option<bool> {
    match (date_read_spec(out), date_parse_spec(bound)) {
        (Some(cur), Some(b)) => Some(cur == b),
        _ => None,
    }
}

/// Checks that the toolchain whose verbose version text is given was
/// released **exactly** on `date`, which must be in `YYYY-MM-DD` form.
pub fn is_exact_date(verbose_output: Option<&str>, date: &str) -> (r: Option<bool>)
    ensures
        r == is_exact_date_spec(text_view(verbose_output), date@),
{
    match (Date::read(verbose_output), Date::parse(date)) {
        (Some(cur), Some(bound)) => Some(cur == bound),
        _ => None,
    }
}

/// What a minimum-version query yields: absent unless both the toolchain's
/// version and the bound parse; then whether the toolchain's numeric triple
/// is at least the bound's.
pub open spec fn is_min_version_spec(out: Option<Seq<char>>, bound: Seq<char>) -> Option<bool> {
    match (version_read_spec(out), version_parse_spec(bound)) {
        (Some(cur), Some(b)) => Some(version_le(b, cur)),
        _ => None,
    }
}

/// Checks that the toolchain whose verbose version text is given is **at
/// least** `min_version`, a semantic version such as `1.15.0-beta`.
pub fn is_min_version(verbose_output: Option<&str>, min_version: &str) -> (r: Option<bool>)
    ensures
        r == is_min_version_spec(text_view(verbose_output), min_version@),
{
    match (Version::read(verbose_output), Version::parse(min_version)) {
        (Some(cur), Some(bound)) => Some(cur >= bound),
        _ => None,
    }
}

/// What a maximum-version query yields: absent unless both versions parse;
/// then whether the toolchain's numeric triple is at most the bound's.
pub open spec fn is_max_version_spec(out: Option<Seq<char>>, bound: Seq<char>) -> Option<bool> {
    match (version_read_spec(out), version_parse_spec(bound)) {
        (Some(cur), Some(b)) => Some(version_le(cur, b)),
        _ => None,
    }
}

/// Checks that the toolchain whose verbose version text is given is **at
/// most** `max_version`, a semantic version such as `1.15.0-beta`.
pub fn is_max_version(verbose_output: Option<&str>, max_version: &str) -> (r: Option<bool>)
    ensures
        r == is_max_version_spec(text_view(verbose_output), max_version@),
{
    match (Version::read(verbose_output), Version::parse(max_version)) {
        (Some(cur), Some(bound)) => Some(cur <= bound),
        _ => None,
    }
}

/// What an exact-version query yields: absent unless both versions parse;
/// then whether the two numeric triples are the same.
pub open spec fn is_exact_version_spec(out: Option<Seq<char>>, bound: Seq<char>) -> Option<bool> {
    match (version_read_spec(out), version_parse_spec(bound)) {
        (Some(cur), Some(b)) => Some(cur == b),
        _ => None,
    }
}

/// Checks that the toolchain whose verbose version text is given is
/// **exactly** `version`, a semantic version such as `1.15.0-beta`.
pub fn is_exact_version(verbose_output: Option<&str>, version: &str) -> (r: Option<bool>)
    ensures
        r == is_exact_version_spec(text_view(verbose_output), version@),
{
    match (Version::read(verbose_output), Version::parse(version)) {
        (Some(cur), Some(bound)) => Some(cur == bound),
        _ => None,
    }
}

/// What a feature-flag query yields: absent when no version string can be
/// read; otherwise whether the channel is nightly or dev.
pub open spec fn is_feature_flaggable_spec(out: Option<Seq<char>>) -> Option<bool> {
    match channel_read_spec(out) {
        Some(c) => Some(c == Channel::Nightly || c == Channel::Dev),
        None => None,
    }
}

/// Checks whether the toolchain whose verbose version text is given
/// supports feature flags, that is, sits on the nightly or dev channel.
pub fn is_feature_flaggable(verbose_output: Option<&str>) -> (r: Option<bool>)
    ensures
        r == is_feature_flaggable_spec(text_view(verbose_output)),
{
    match Channel::read(verbose_output) {
        Some(c) => Some(c.supports_features()),
        None => None,
    }
}

} // verus!
