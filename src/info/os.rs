//! The distribution as text, from the os-release file.

use vstd::prelude::*;

use crate::kv::{entries_map, parse_key_values, KeyMap};
use crate::os::{describe_distro, distro_text};
use crate::text::lines;

verus! {

/// Parses the contents of the os-release file into a map; values lose one
/// layer of double quotes, and lines without `=` are skipped.
pub fn parse_os_release(contents: &str) -> (r: Option<KeyMap<String>>)
    ensures
        r matches Some(m) && m@ == entries_map(lines(contents@), '=', true),
{
    parse_key_values(contents, '=', true, false)
}

/// The distribution that the contents of the os-release file name, as
/// `NAME VERSION` or `NAME`; `None` where there is no `NAME`.
pub fn os_description(contents: &str) -> (r: Option<String>)
    ensures
        match distro_text(entries_map(lines(contents@), '=', true)) {
            Some(t) => r matches Some(s) && s@ == t,
            None => r is None,
        },
{
    match parse_os_release(contents) {
        Some(m) => describe_distro(&m),
        None => None,
    }
}

} // verus!
