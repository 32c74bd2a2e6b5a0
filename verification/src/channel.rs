//! The channel model: which release track a version string belongs to,
//! decided by substring inspection with a fixed precedence — `nightly`
//! first, then `beta`, then `dev`, and stable when none of them occurs.

use vstd::prelude::*;

use crate::parse::version_text_spec;
use crate::text::{contains_spec, text_view};

verus! {

/// The release track of a toolchain build.
#[derive(Clone, Copy, Debug, PartialEq, Eq, Hash, Structural)]
pub enum Channel {
    Stable,
    Beta,
    Nightly,
    Dev,
}

/// What classifying a version string yields: `nightly` anywhere wins, then
/// `beta`, then `dev`; a string with none of the three is stable.
pub open spec fn channel_parse_spec(s: Seq<char>) -> Channel {
    if contains_spec(s, "nightly"@) {
        Channel::Nightly
    } else if contains_spec(s, "beta"@) {
        Channel::Beta
    } else if contains_spec(s, "dev"@) {
        Channel::Dev
    } else {
        Channel::Stable
    }
}

/// What reading the channel of a toolchain from its verbose version text
/// yields: the version string the verbose parse finds, classified.
pub open spec fn channel_read_spec(out: Option<Seq<char>>) -> Option<Channel> {
    match version_text_spec(out) {
        Some(t) => Some(channel_parse_spec(t)),
        None => None,
    }
}

/// The lowercase name of a channel, for diagnostic output.
pub open spec fn channel_name_spec(c: Channel) -> Seq<char> {
    match c {
        Channel::Stable => "stable"@,
        Channel::Beta => "beta"@,
        Channel::Nightly => "nightly"@,
        Channel::Dev => "dev"@,
    }
}

impl Channel {
    /// Classifies `version`, as `channel_parse_spec` says.  Classification
    /// always succeeds: the result is absent only when the caller had no
    /// version text to offer at all.
    pub fn parse(version: &str) -> (r: Option<Channel>)
        ensures
            r == Some(channel_parse_spec(version@)),
    {
        if crate::text::contains_str(version, "nightly") {
            Some(Channel::Nightly)
        } else if crate::text::contains_str(version, "beta") {
            Some(Channel::Beta)
        } else if crate::text::contains_str(version, "dev") {
            Some(Channel::Dev)
        } else {
            Some(Channel::Stable)
        }
    }

    /// Reads the channel out of a toolchain's verbose version text, or
    /// `None` when the text is absent or yields no version string.
    pub fn read(verbose_output: Option<&str>) -> (r: Option<Channel>)
        ensures
            r == channel_read_spec(text_view(verbose_output)),
    {
        let text = match verbose_output {
            Some(t) => t,
            None => {
                return None;
            },
        };
        let (version, _date) = crate::parse::version_and_date_from_rustc_verbose_version(text);
        match version {
            Some(v) => Channel::parse(v.as_str()),
            None => None,
        }
    }

    /// Whether this is the stable channel.
    pub fn is_stable(&self) -> (r: bool)
        ensures
            r == (*self == Channel::Stable),
    {
        matches!(*self, Channel::Stable)
    }

    /// Whether this channel accepts experimental feature flags: true for
    /// the nightly and dev channels only.
    pub fn supports_features(&self) -> (r: bool)
        ensures
            r == (*self == Channel::Nightly || *self == Channel::Dev),
    {
        matches!(*self, Channel::Nightly | Channel::Dev)
    }

    /// The channel's lowercase name.
    pub fn name(&self) -> (r: String)
        ensures
            r@ == channel_name_spec(*self),
    {
        match *self {
            Channel::Stable => String::from_str("stable"),
            Channel::Beta => String::from_str("beta"),
            Channel::Nightly => String::from_str("nightly"),
            Channel::Dev => String::from_str("dev"),
        }
    }
}

} // verus!
