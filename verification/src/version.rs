//! The version number of a config file.

use vstd::prelude::*;
use crate::numerals::{spec_parse_u32, parse_u32_range, dec_digits, render_u32};

verus! {

use vstd::string::StrSliceExecFns;

/// A config file version.
#[derive(Clone, Copy, Debug, PartialEq, Eq, Structural)]
pub struct Version(pub u32);

impl Version {
    /// Wrap a version number.
    pub fn new(version: u32) -> (v: Version)
        ensures
            v.0 == version,
    {
        Version(version)
    }

    /// Parse a version from its decimal text.
    pub fn from_decimal(s: &str) -> (r: Option<Version>)
        ensures
            match r {
                Some(v) => spec_parse_u32(s@) == Some(v.0),
                None => spec_parse_u32(s@) is None,
            },
    {
        let n = s.unicode_len();
        proof {
            assert(s@.subrange(0, n as int) =~= s@);
        }
        match parse_u32_range(s, 0, n) {
            Some(v) => Some(Version(v)),
            None => None,
        }
    }

    /// Render the version as decimal text.
    pub fn render(&self) -> (r: String)
        ensures
            r@ == dec_digits(self.0 as int),
    {
        render_u32(self.0)
    }
}

} // verus!
