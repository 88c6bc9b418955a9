//! Memory usage in whole MiB, from the kernel's memory-info file.

use vstd::prelude::*;

use crate::kv::{entries_map, parse_key_values, KeyMap};
use crate::memory::{get_usage, mem_value, usage_of};
use crate::text::{decimal, lines, push_all, push_decimal, string_from_chars};

verus! {

/// Reads a memory-info value, such as `16333740 kB`, in whole MiB.
pub fn parse_mem_value(value: &str) -> (r: u32)
    ensures
        r == mem_value(value@) / 1024,
{
    crate::memory::parse_mem_value(value) / 1024
}

/// The memory-info map in whole MiB: each line `KEY: VALUE` gives `KEY` the
/// size in `VALUE`, divided by 1024.
pub open spec fn meminfo_mib_map(s: Seq<char>) -> Map<Seq<char>, u32> {
    entries_map(lines(s), ':', false).map_values(|v: Seq<char>| (mem_value(v) / 1024) as u32)
}

/// Parses the contents of the memory-info file into a map from key to size
/// in whole MiB; lines without `:` are skipped.
pub fn parse_proc_meminfo(contents: &str) -> (r: Option<KeyMap<u32>>)
    ensures
        r matches Some(m) && m@ == meminfo_mib_map(contents@),
{
    match parse_key_values(contents, ':', false, false) {
        Some(m) => {
            let r = m.map_mem_values(true);
            assert(r@ =~= meminfo_mib_map(contents@));
            Some(r)
        },
        None => None,
    }
}

/// The text `<used>MiB / <total>MiB`.
pub open spec fn usage_mib_text(used: u32, total: u32) -> Seq<char> {
    decimal(used as nat) + seq!['M', 'i', 'B', ' ', '/', ' '] + decimal(total as nat) + seq![
        'M',
        'i',
        'B',
    ]
}

/// The memory usage that the contents of the memory-info file give, as
/// `<used>MiB / <total>MiB`; `None` where a key is missing or more is
/// available than there is in total.
pub fn memory_usage_text(contents: &str) -> (r: Option<String>)
    ensures
        match usage_of(meminfo_mib_map(contents@)) {
            Some(u) => r matches Some(t) && t@ == usage_mib_text(u.0, u.1),
            None => r is None,
        },
{
    let map = match parse_proc_meminfo(contents) {
        Some(m) => m,
        None => {
            return None;
        },
    };
    match get_usage(&map) {
        Some((used, total)) => {
            let mut out: Vec<char> = Vec::new();
            push_decimal(&mut out, used as u128);
            push_all(&mut out, &vec!['M', 'i', 'B', ' ', '/', ' ']);
            push_decimal(&mut out, total as u128);
            push_all(&mut out, &vec!['M', 'i', 'B']);
            assert(out@ =~= usage_mib_text(used, total));
            Some(string_from_chars(&out))
        },
        None => None,
    }
}

} // verus!
