//! Memory usage from the kernel's memory-info file, and its rendering in
//! KiB, MiB or GiB with an optional percentage.

use vstd::prelude::*;

use crate::kv::{
    all_delimited, entries_map, has_delim, key_of, lemma_entries_map_one_per_line,
    lemma_entries_map_single_key, parse_key_values, value_of, KeyMap,
};
use crate::text::{
    chars_of, decimal, drop_plus, find_char, is_digit, is_ws, lemma_decimal, lemma_find_char, lemma_trim_end_suffix,
    lemma_trim_start_prefix, lines, parse_u32, parse_u32_in, push_all, push_decimal,
    string_from_chars, strips, trim, trim_by, trim_range, Strip,
};

verus! {

/// The number that a memory-info value such as `16333740 kB` holds: the
/// text without surrounding whitespace, `k` and `B`, read as a `u32`; zero
/// where that fails.
pub open spec fn mem_value(s: Seq<char>) -> u32 {
    match parse_u32(trim_by(s, Strip::SpaceOrUnit)) {
        Some(n) => n,
        None => 0,
    }
}

/// Reads a memory-info value in KiB (see [`mem_value`]).
pub fn parse_mem_value(value: &str) -> (r: u32)
    ensures
        r == mem_value(value@),
{
    let v = chars_of(value);
    let (a, b) = trim_range(&v, 0, v.len(), &Strip::SpaceOrUnit);
    assert(v@.subrange(0, v.len() as int) =~= value@);
    match parse_u32_in(&v, a, b) {
        Some(n) => n,
        None => 0,
    }
}

/// The memory-info map: each line `KEY: VALUE` gives `KEY` the number in
/// `VALUE` (see [`mem_value`]).
pub open spec fn meminfo_map(s: Seq<char>) -> Map<Seq<char>, u32> {
    entries_map(lines(s), ':', false).map_values(|v: Seq<char>| mem_value(v))
}

/// Parses the contents of the memory-info file into a map from key to size
/// in KiB; lines without `:` are skipped.
pub fn parse(contents: &str) -> (r: KeyMap<u32>)
    ensures
        r@ == meminfo_map(contents@),
{
    match parse_key_values(contents, ':', false, false) {
        Some(m) => m.map_mem_values(false),
        None => KeyMap::new(),
    }
}

/// On memory-info text whose lines each hold a `:` and name distinct keys,
/// the parsed map has one entry per line, and each line's key maps to the
/// size that its value holds.
pub proof fn lemma_meminfo_one_entry_per_line(s: Seq<char>)
    requires
        all_delimited(lines(s), ':'),
        forall|i: int, j: int|
            0 <= i < j < lines(s).len() ==> key_of(#[trigger] lines(s)[i], ':') != key_of(
                #[trigger] lines(s)[j],
                ':',
            ),
    ensures
        meminfo_map(s).dom().finite(),
        meminfo_map(s).dom().len() == lines(s).len(),
        forall|i: int|
            0 <= i < lines(s).len() ==> meminfo_map(s)[key_of(#[trigger] lines(s)[i], ':')]
                == mem_value(value_of(lines(s)[i], ':', false)),
{
    lemma_entries_map_one_per_line(lines(s), ':', false);
    let m = entries_map(lines(s), ':', false);
    assert(meminfo_map(s).dom() =~= m.dom());
    assert forall|i: int| 0 <= i < lines(s).len() implies meminfo_map(s)[key_of(
        #[trigger] lines(s)[i],
        ':',
    )] == mem_value(value_of(lines(s)[i], ':', false)) by {
        let k = key_of(lines(s)[i], ':');
        crate::kv::lemma_entries_map_keys(lines(s), ':', false, k);
        assert(has_delim(lines(s)[i], ':'));
        assert(m.contains_key(k));
        assert(meminfo_map(s)[k] == mem_value(m[k]));
    }
}

/// A memory-info value written as whitespace, the decimal numeral of `n`
/// and ` kB` holds `n`.
pub proof fn lemma_mem_value_of_size(w: Seq<char>, n: u32)
    requires
        forall|i: int| 0 <= i < w.len() ==> is_ws(#[trigger] w[i]),
    ensures
        mem_value(w + decimal(n as nat) + seq![' ', 'k', 'B']) == n,
{
    let d = decimal(n as nat);
    let u = seq![' ', 'k', 'B'];
    lemma_decimal(n as nat);
    assert(is_digit(d[0]));
    assert(is_digit(d.last()));
    assert forall|i: int| 0 <= i < w.len() implies strips(Strip::SpaceOrUnit, #[trigger] w[i]) by {
        assert(is_ws(w[i]));
    }
    assert(w + d + u =~= w + (d + u));
    lemma_trim_start_prefix(w, d + u, Strip::SpaceOrUnit);
    assert((d + u)[0] == d[0]);
    assert forall|i: int| 0 <= i < u.len() implies strips(Strip::SpaceOrUnit, #[trigger] u[i]) by {
        assert(is_ws(' '));
    }
    lemma_trim_end_suffix(d, u, Strip::SpaceOrUnit);
    assert(drop_plus(d) == d);
}

/// In memory-info text where one line reads `KEY:`, whitespace, the
/// decimal numeral of `n` and ` kB`, and no other line names `KEY`, the
/// parsed map gives `KEY` (trimmed) the size `n`, whatever the other lines
/// hold.
pub proof fn lemma_meminfo_line_value(s: Seq<char>, i: int, key: Seq<char>, w: Seq<char>, n: u32)
    requires
        0 <= i < lines(s).len(),
        lines(s)[i] == key + seq![':'] + w + decimal(n as nat) + seq![' ', 'k', 'B'],
        forall|j: int| 0 <= j < key.len() ==> #[trigger] key[j] != ':',
        forall|j: int| 0 <= j < w.len() ==> is_ws(#[trigger] w[j]),
        forall|j: int|
            0 <= j < lines(s).len() && j != i && has_delim(#[trigger] lines(s)[j], ':') ==> key_of(
                lines(s)[j],
                ':',
            ) != trim(key),
    ensures
        meminfo_map(s).contains_key(trim(key)),
        meminfo_map(s)[trim(key)] == n,
{
    let l = lines(s)[i];
    let d = decimal(n as nat);
    let u = seq![' ', 'k', 'B'];
    lemma_find_char(l, ':');
    let f = find_char(l, ':');
    assert(l[key.len() as int] == ':');
    if f < key.len() {
        assert(l[f] == key[f]);
    }
    assert(f == key.len());
    assert(l.subrange(0, f) =~= key);
    assert(has_delim(l, ':'));
    assert(key_of(l, ':') == trim(key));
    // The value: leading whitespace and nothing trailing to trim.
    let after = l.subrange(f + 1, l.len() as int);
    assert(after =~= w + (d + u));
    lemma_decimal(n as nat);
    assert(is_digit(d[0]));
    assert((d + u)[0] == d[0]);
    assert forall|j: int| 0 <= j < w.len() implies strips(Strip::Space, #[trigger] w[j]) by {
        assert(is_ws(w[j]));
    }
    lemma_trim_start_prefix(w, d + u, Strip::Space);
    let empty = Seq::<char>::empty();
    assert((d + u) + empty =~= d + u);
    assert((d + u).last() == 'B');
    lemma_trim_end_suffix(d + u, empty, Strip::Space);
    assert(value_of(l, ':', false) == d + u);
    assert(empty + d + u =~= d + u);
    lemma_mem_value_of_size(empty, n);
    lemma_entries_map_single_key(lines(s), ':', false, i);
}

/// A unit for memory sizes.
pub enum MemoryUnit {
    KiB,
    MiB,
    GiB,
}

/// `n / d` rounded to the nearest integer, a tie to the even one.
pub open spec fn round_div(n: nat, d: nat) -> nat
    recommends
        d > 0,
{
    let q = n / d;
    let r = n % d;
    if 2 * r > d || (2 * r == d && q % 2 == 1) {
        q + 1
    } else {
        q
    }
}

/// The two-digit numeral of `n < 100`.
pub open spec fn two_digits(n: nat) -> Seq<char> {
    if n < 10 {
        seq!['0'] + decimal(n)
    } else {
        decimal(n)
    }
}

/// The text for `kib` KiB in `unit`: whole KiB; MiB rounded to a whole
/// number; GiB rounded to two decimals.
pub open spec fn unit_text(unit: MemoryUnit, kib: nat) -> Seq<char> {
    match unit {
        MemoryUnit::KiB => decimal(kib) + seq![' ', 'K', 'i', 'B'],
        MemoryUnit::MiB => decimal(round_div(kib, 1024)) + seq![' ', 'M', 'i', 'B'],
        MemoryUnit::GiB => {
            let h = round_div(kib * 100, 1048576);
            decimal(h / 100) + seq!['.'] + two_digits(h % 100) + seq![' ', 'G', 'i', 'B']
        },
    }
}

/// Executable form of [`round_div`].
fn round_div_u64(n: u64, d: u64) -> (r: u64)
    requires
        0 < d <= u32::MAX,
        n <= u64::MAX / 2,
    ensures
        r == round_div(n as nat, d as nat),
{
    let q = n / d;
    let r = n % d;
    if 2 * r > d || (2 * r == d && q % 2 == 1) {
        assert(q < n / d + 1);
        q + 1
    } else {
        q
    }
}

impl MemoryUnit {
    /// Renders `kib_value` KiB in this unit, such as `15.58 GiB`.
    pub fn to_unit_str(&self, kib_value: u32) -> (r: String)
        ensures
            r@ == unit_text(*self, kib_value as nat),
    {
        let mut out: Vec<char> = Vec::new();
        match self {
            MemoryUnit::KiB => {
                push_decimal(&mut out, kib_value as u128);
                push_all(&mut out, &vec![' ', 'K', 'i', 'B']);
            },
            MemoryUnit::MiB => {
                let m = round_div_u64(kib_value as u64, 1024);
                push_decimal(&mut out, m as u128);
                push_all(&mut out, &vec![' ', 'M', 'i', 'B']);
            },
            MemoryUnit::GiB => {
                let h = round_div_u64(kib_value as u64 * 100, 1048576);
                push_decimal(&mut out, (h / 100) as u128);
                out.push('.');
                if h % 100 < 10 {
                    out.push('0');
                }
                push_decimal(&mut out, (h % 100) as u128);
                push_all(&mut out, &vec![' ', 'G', 'i', 'B']);
            },
        }
        assert(out@ =~= unit_text(*self, kib_value as nat));
        string_from_chars(&out)
    }
}

/// The share of `total` that `used` is, in percent, rounded to the nearest
/// integer (a tie to the even one); zero where `total` is zero.
pub open spec fn percent(used: nat, total: nat) -> nat {
    if total == 0 {
        0
    } else {
        round_div(used * 100, total)
    }
}

/// Memory in use never exceeds the total, and its share of the total lies
/// between zero and a hundred percent.
pub proof fn lemma_usage_in_range(total: u32, available: u32)
    requires
        available <= total,
    ensures
        0 <= total - available <= total,
        0 <= percent((total - available) as nat, total as nat) <= 100,
{
    let used = (total - available) as nat;
    if total > 0 {
        assert(used * 100 <= total * 100) by (nonlinear_arith)
            requires
                used <= total,
        ;
        let q = (used * 100) / (total as nat);
        let r = (used * 100) % (total as nat);
        assert(q * total + r == used * 100) by (nonlinear_arith)
            requires
                total > 0,
                q == (used * 100) / (total as nat),
                r == (used * 100) % (total as nat),
        ;
        assert(q <= 100) by (nonlinear_arith)
            requires
                q * total + r == used * 100,
                used * 100 <= total * 100,
                r >= 0,
                total > 0,
        ;
        if q == 100 {
            assert(r == 0) by (nonlinear_arith)
                requires
                    q * total + r == used * 100,
                    used * 100 <= total * 100,
                    q == 100,
                    r >= 0,
            ;
        }
    }
}

/// Computes [`percent`].
pub fn used_percent(used: u32, total: u32) -> (r: u64)
    ensures
        r == percent(used as nat, total as nat),
{
    if total == 0 {
        0
    } else {
        round_div_u64(used as u64 * 100, total as u64)
    }
}

/// The memory line: usage as `(used, total)` in KiB, and how to show it.
pub struct Memory {
    /// `(used, total)`, in KiB.
    pub usage: (u32, u32),
    pub header: String,
    /// The unit for the sizes.
    pub unit: MemoryUnit,
    /// Whether to add the share in use as a percentage.
    pub show_percentage: bool,
}

/// The rendering of a memory line: `<used> / <total>` in `unit`, then
/// ` (<percent>%)` where asked for.
pub open spec fn memory_text(used: u32, total: u32, unit: MemoryUnit, show_percentage: bool) -> Seq<
    char,
> {
    let base = unit_text(unit, used as nat) + seq![' ', '/', ' '] + unit_text(unit, total as nat);
    if show_percentage {
        base + seq![' ', '('] + decimal(percent(used as nat, total as nat)) + seq!['%', ')']
    } else {
        base
    }
}

/// The `(used, total)` pair of a memory-info map: total is `MemTotal`, used
/// is `MemTotal - MemAvailable`; `None` where a key is missing or more is
/// available than there is in total.
pub open spec fn usage_of(m: Map<Seq<char>, u32>) -> Option<(u32, u32)> {
    let t = seq!['M', 'e', 'm', 'T', 'o', 't', 'a', 'l'];
    let a = seq!['M', 'e', 'm', 'A', 'v', 'a', 'i', 'l', 'a', 'b', 'l', 'e'];
    if m.contains_key(t) && m.contains_key(a) && m[a] <= m[t] {
        Some(((m[t] - m[a]) as u32, m[t]))
    } else {
        None
    }
}

/// Looks up the `(used, total)` pair of a memory-info map (see
/// [`usage_of`]).
pub fn get_usage(map: &KeyMap<u32>) -> (r: Option<(u32, u32)>)
    ensures
        r == usage_of(map@),
{
    proof {
        reveal_strlit("MemTotal");
        reveal_strlit("MemAvailable");
    }
    assert("MemTotal"@ =~= seq!['M', 'e', 'm', 'T', 'o', 't', 'a', 'l']);
    assert("MemAvailable"@ =~= seq!['M', 'e', 'm', 'A', 'v', 'a', 'i', 'l', 'a', 'b', 'l', 'e']);
    let total = match map.get("MemTotal") {
        Some(t) => *t,
        None => {
            return None;
        },
    };
    let available = match map.get("MemAvailable") {
        Some(a) => *a,
        None => {
            return None;
        },
    };
    if available > total {
        return None;
    }
    Some((total - available, total))
}

impl Memory {
    /// A memory line for `used` of `total` KiB, in GiB with the percentage.
    pub fn new(used: u32, total: u32) -> (r: Self)
        ensures
            r.usage == (used, total),
            r.header@ == seq!['M', 'e', 'm', 'o', 'r', 'y'],
            r.unit == MemoryUnit::GiB,
            r.show_percentage,
    {
        let header = string_from_chars(&vec!['M', 'e', 'm', 'o', 'r', 'y']);
        Memory { usage: (used, total), header, unit: MemoryUnit::GiB, show_percentage: true }
    }

    /// The memory line for the contents of the memory-info file; `None`
    /// where the file could not be read (`contents` is `None`) or gives no
    /// usage.
    pub fn from_contents(contents: Option<&str>) -> (r: Option<Self>)
        ensures
            contents is None ==> r is None,
            contents matches Some(c) ==> match usage_of(meminfo_map(c@)) {
                Some(u) => r matches Some(x) && x.usage == u && x.unit == MemoryUnit::GiB
                    && x.show_percentage && x.header@ == seq!['M', 'e', 'm', 'o', 'r', 'y'],
                None => r is None,
            },
    {
        match contents {
            Some(c) => {
                let map = parse(c);
                match get_usage(&map) {
                    Some((used, total)) => Some(Memory::new(used, total)),
                    None => None,
                }
            },
            None => None,
        }
    }

    /// The rendered usage, such as `4.27 GiB / 15.58 GiB (27%)`.
    pub fn value(&self) -> (r: String)
        ensures
            r@ == memory_text(self.usage.0, self.usage.1, self.unit, self.show_percentage),
    {
        let used = self.usage.0;
        let total = self.usage.1;
        let u = self.unit.to_unit_str(used);
        let t = self.unit.to_unit_str(total);
        let mut out = chars_of(u.as_str());
        push_all(&mut out, &vec![' ', '/', ' ']);
        push_all(&mut out, &chars_of(t.as_str()));
        if self.show_percentage {
            push_all(&mut out, &vec![' ', '(']);
            push_decimal(&mut out, used_percent(used, total) as u128);
            push_all(&mut out, &vec!['%', ')']);
        }
        assert(out@ =~= memory_text(used, total, self.unit, self.show_percentage));
        string_from_chars(&out)
    }
}

} // verus!
