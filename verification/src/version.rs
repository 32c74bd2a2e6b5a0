//! The version model: a dotted numeric triple, read from text of the shape
//! `MAJOR.MINOR.PATCH[-TAG]`, ordered lexicographically on the triple alone.

use vstd::prelude::*;

use core::cmp::Ordering;

use crate::parse::version_text_spec;
use crate::text::{digits_val, is_numeric_within, split_spec, text_view};

verus! {

/// A parsed toolchain version: the numeric triple of a semantic version.
/// A pre-release tag in the source text takes no part in the triple; the
/// channel model classifies it instead.
#[derive(Clone, Copy, Debug, PartialEq, Eq, Hash, Structural)]
pub struct Version {
    pub major: u16,
    pub minor: u16,
    pub patch: u16,
}

/// The values of the tokens of `parts` that are non-empty digit strings
/// within `u16`, in order; tokens of any other shape are passed over.
pub open spec fn numeric_values(parts: Seq<Seq<char>>) -> Seq<int>
    decreases parts.len(),
{
    if parts.len() == 0 {
        Seq::empty()
    } else {
        let pre = numeric_values(parts.drop_last());
        if is_numeric_within(parts.last(), u16::MAX as int) {
            pre.push(digits_val(parts.last()))
        } else {
            pre
        }
    }
}

/// What parsing a version string yields: everything from the first `-` on is
/// cut away, the remainder is cut at every `.`, the tokens that read as
/// numbers within `u16` are kept, and exactly three such tokens must remain.
pub open spec fn version_parse_spec(s: Seq<char>) -> Option<Version> {
    let nums = numeric_values(split_spec(split_spec(s, '-')[0], '.'));
    if nums.len() == 3 {
        Some(
            Version {
                major: nums[0] as u16,
                minor: nums[1] as u16,
                patch: nums[2] as u16,
            },
        )
    } else {
        None
    }
}

/// `a` at most `b` in the numeric-triple order.
pub open spec fn version_le(a: Version, b: Version) -> bool {
    a.major < b.major || (a.major == b.major && (a.minor < b.minor || (a.minor == b.minor
        && a.patch <= b.patch)))
}

/// What reading the version of a toolchain from its verbose version text
/// yields: the version string the verbose parse finds, parsed as a triple.
pub open spec fn version_read_spec(out: Option<Seq<char>>) -> Option<Version> {
    match version_text_spec(out) {
        Some(t) => version_parse_spec(t),
        None => None,
    }
}

impl Version {
    /// Reads `version` as a numeric triple, as `version_parse_spec` says.
    pub fn parse(version: &str) -> (r: Option<Version>)
        ensures
            r == version_parse_spec(version@),
    {
        let dash_parts = crate::text::split_str(version, '-');
        proof {
            crate::text::lemma_split_len(version@, '-');
            assert(dash_parts.deep_view()[0] == dash_parts[0]@);
        }
        let head = dash_parts[0];
        let dot_parts = crate::text::split_str(head, '.');
        let ghost dv = dot_parts.deep_view();
        let mut nums: Vec<u16> = Vec::new();
        let mut i: usize = 0;
        while i < dot_parts.len()
            invariant
                i <= dot_parts.len(),
                dv == dot_parts.deep_view(),
                dv =~~= split_spec(split_spec(version@, '-')[0], '.'),
                nums@.len() == numeric_values(dv.take(i as int)).len(),
                forall|j: int|
                    0 <= j < nums@.len() ==> #[trigger] nums@[j] as int == numeric_values(
                        dv.take(i as int),
                    )[j],
            decreases dot_parts.len() - i,
        {
            proof {
                assert(dv.take(i as int + 1).drop_last() =~~= dv.take(i as int));
                assert(dot_parts[i as int]@ == dv[i as int]);
            }
            let tok = dot_parts[i];
            match crate::text::parse_u16_str(tok) {
                Some(v) => { nums.push(v) },
                None => {},
            }
            i += 1;
        }
        proof {
            assert(dv.take(dot_parts.len() as int) =~~= dv);
        }
        if nums.len() == 3 {
            let r = Some(Version { major: nums[0], minor: nums[1], patch: nums[2] });
            proof {
                let spec_nums = numeric_values(dv);
                assert(nums@[0] as int == spec_nums[0]);
                assert(nums@[1] as int == spec_nums[1]);
                assert(nums@[2] as int == spec_nums[2]);
            }
            r
        } else {
            None
        }
    }

    /// Reads the version out of a toolchain's verbose version text, or
    /// `None` when the text is absent or yields no parseable version.
    pub fn read(verbose_output: Option<&str>) -> (r: Option<Version>)
        ensures
            r == version_read_spec(text_view(verbose_output)),
    {
        let text = match verbose_output {
            Some(t) => t,
            None => {
                return None;
            },
        };
        let (version, _date) = crate::parse::version_and_date_from_rustc_verbose_version(text);
        match version {
            Some(v) => Version::parse(v.as_str()),
            None => None,
        }
    }
}

impl PartialOrd for Version {
    fn partial_cmp(&self, other: &Version) -> (r: Option<Ordering>) {
        if self.major != other.major {
            if self.major < other.major {
                Some(Ordering::Less)
            } else {
                Some(Ordering::Greater)
            }
        } else if self.minor != other.minor {
            if self.minor < other.minor {
                Some(Ordering::Less)
            } else {
                Some(Ordering::Greater)
            }
        } else if self.patch != other.patch {
            if self.patch < other.patch {
                Some(Ordering::Less)
            } else {
                Some(Ordering::Greater)
            }
        } else {
            Some(Ordering::Equal)
        }
    }
}

impl vstd::std_specs::cmp::PartialOrdSpecImpl for Version {
    open spec fn obeys_partial_cmp_spec() -> bool {
        true
    }

    open spec fn partial_cmp_spec(&self, other: &Version) -> Option<Ordering> {
        if version_le(*self, *other) && !version_le(*other, *self) {
            Some(Ordering::Less)
        } else if version_le(*self, *other) && version_le(*other, *self) {
            Some(Ordering::Equal)
        } else {
            Some(Ordering::Greater)
        }
    }
}

/// The numeric-triple comparison is a total order: reflexive, antisymmetric,
/// transitive, and total.
pub proof fn lemma_version_order_total(a: Version, b: Version, c: Version)
    ensures
        version_le(a, a),
        version_le(a, b) && version_le(b, a) ==> a == b,
        version_le(a, b) && version_le(b, c) ==> version_le(a, c),
        version_le(a, b) || version_le(b, a),
{
}

} // verus!
