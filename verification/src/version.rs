//! The application version record and its dotted textual form.

use vstd::prelude::*;
use crate::error::Error;
use crate::text::{find_char, lemma_find_char, parse_u32, spec_find_char, spec_parse_u32};

verus! {

/// The version-check record, as the update endpoint reports it.
pub struct Version {
    pub is_broken: bool,
    pub is_below_soft: bool,
    pub hard_update_time: i64,
    pub beta: String,
    pub current_version: String,
}

/// A three-part application version number.
pub struct AppVersion {
    pub primary: u32,
    pub secondary: u32,
    pub tertiary: u32,
}

/// What parsing `a.b.c` yields: the three numbers, or nothing when a part is
/// missing or not a plain number.
pub open spec fn spec_parse_version(s: Seq<char>) -> Option<(u32, u32, u32)> {
    match spec_find_char(s, '.') {
        None => None,
        Some(i) => {
            let rest = s.subrange(i + 1, s.len() as int);
            match spec_find_char(rest, '.') {
                None => None,
                Some(j) => {
                    let a = spec_parse_u32(s.subrange(0, i));
                    let b = spec_parse_u32(rest.subrange(0, j));
                    let c = spec_parse_u32(rest.subrange(j + 1, rest.len() as int));
                    match (a, b, c) {
                        (Some(x), Some(y), Some(z)) => Some((x, y, z)),
                        _ => None,
                    }
                },
            }
        },
    }
}

/// Parses the dotted version string of a version record.
pub fn parse(version: &Version) -> (r: Option<AppVersion>)
    ensures
        match r {
            Some(v) => spec_parse_version(version.current_version@) == Some(
                (v.primary, v.secondary, v.tertiary),
            ),
            None => spec_parse_version(version.current_version@) is None,
        },
{
    let s = version.current_version.as_str();
    let n = s.unicode_len();
    match find_char(s, '.') {
        None => None,
        Some(i) => {
            proof {
                lemma_find_char(s@, '.');
            }
            let head = s.substring_char(0, i);
            let rest = s.substring_char(i + 1, n);
            let m = rest.unicode_len();
            match find_char(rest, '.') {
                None => None,
                Some(j) => {
                    proof {
                        lemma_find_char(rest@, '.');
                    }
                    let mid = rest.substring_char(0, j);
                    let tail = rest.substring_char(j + 1, m);
                    let a = match parse_u32(head) {
                        Ok(x) => x,
                        Err(_) => {
                            return None;
                        },
                    };
                    let b = match parse_u32(mid) {
                        Ok(x) => x,
                        Err(_) => {
                            return None;
                        },
                    };
                    let c = match parse_u32(tail) {
                        Ok(x) => x,
                        Err(_) => {
                            return None;
                        },
                    };
                    Some(AppVersion { primary: a, secondary: b, tertiary: c })
                },
            }
        },
    }
}

impl Version {
    /// The structured version, or an error when the text is malformed.
    pub fn try_into_app_version(&self) -> (r: Result<AppVersion, Error>)
        ensures
            match r {
                Ok(v) => spec_parse_version(self.current_version@) == Some(
                    (v.primary, v.secondary, v.tertiary),
                ),
                Err(e) => spec_parse_version(self.current_version@) is None && e
                    == Error::IntoError,
            },
    {
        match parse(self) {
            Some(v) => Ok(v),
            None => Err(Error::IntoError),
        }
    }
}

} // verus!
