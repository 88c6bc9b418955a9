//! The CPU line: model name and core count from the kernel's cpu-info file.

use vstd::prelude::*;

use crate::kv::{entries_map, parse_key_values, KeyMap};
use crate::text::{
    chars_of, decimal, lines, parse_u32, parse_u32_in, push_all, push_decimal, replace,
    replace_all, string_from_chars,
};

verus! {

/// Parses the contents of the cpu-info file (`KEY : VALUE` lines) into a
/// map; lines without `:` are skipped.
pub fn parse(contents: &str) -> (r: KeyMap<String>)
    ensures
        r@ == entries_map(lines(contents@), ':', false),
{
    match parse_key_values(contents, ':', false, false) {
        Some(m) => m,
        None => KeyMap::new(),
    }
}

/// The number of branding words that shortening removes.
pub const BRANDING_COUNT: usize = 11;

/// The `i`-th branding word that shortening removes, in the order of
/// removal.
pub open spec fn branding(i: int) -> Seq<char> {
    if i == 0 {
        seq!['(', 'T', 'M', ')']
    } else if i == 1 {
        seq!['(', 't', 'm', ')']
    } else if i == 2 {
        seq!['(', 'R', ')']
    } else if i == 3 {
        seq!['(', 'r', ')']
    } else if i == 4 {
        seq![' ', 'C', 'o', 'r', 'e']
    } else if i == 5 {
        seq![' ', 'C', 'P', 'U']
    } else if i == 6 {
        seq![' ', 'P', 'r', 'o', 'c', 'e', 's', 's', 'o', 'r']
    } else if i == 7 {
        seq![' ', 'D', 'u', 'a', 'l', '-', 'C', 'o', 'r', 'e']
    } else if i == 8 {
        seq![' ', 'Q', 'u', 'a', 'd', '-', 'C', 'o', 'r', 'e']
    } else if i == 9 {
        seq![' ', 'S', 'i', 'x', '-', 'C', 'o', 'r', 'e']
    } else {
        seq![' ', 'E', 'i', 'g', 'h', 't', '-', 'C', 'o', 'r', 'e']
    }
}

/// `s` with every occurrence of the first `n` branding words removed, one
/// word after the other.
pub open spec fn strip_branding(s: Seq<char>, n: nat) -> Seq<char>
    decreases n,
{
    if n == 0 {
        s
    } else {
        replace_all(strip_branding(s, (n - 1) as nat), branding(n - 1), seq![])
    }
}

/// The executable form of [`branding`].
fn branding_chars(i: usize) -> (r: Vec<char>)
    requires
        i < BRANDING_COUNT,
    ensures
        r@ == branding(i as int),
        r@.len() > 0,
{
    let v = if i == 0 {
        vec!['(', 'T', 'M', ')']
    } else if i == 1 {
        vec!['(', 't', 'm', ')']
    } else if i == 2 {
        vec!['(', 'R', ')']
    } else if i == 3 {
        vec!['(', 'r', ')']
    } else if i == 4 {
        vec![' ', 'C', 'o', 'r', 'e']
    } else if i == 5 {
        vec![' ', 'C', 'P', 'U']
    } else if i == 6 {
        vec![' ', 'P', 'r', 'o', 'c', 'e', 's', 's', 'o', 'r']
    } else if i == 7 {
        vec![' ', 'D', 'u', 'a', 'l', '-', 'C', 'o', 'r', 'e']
    } else if i == 8 {
        vec![' ', 'Q', 'u', 'a', 'd', '-', 'C', 'o', 'r', 'e']
    } else if i == 9 {
        vec![' ', 'S', 'i', 'x', '-', 'C', 'o', 'r', 'e']
    } else {
        vec![' ', 'E', 'i', 'g', 'h', 't', '-', 'C', 'o', 'r', 'e']
    };
    assert(v@ =~= branding(i as int));
    v
}

/// Removes branding words such as `(R)`, `(TM)` and ` CPU` from a CPU model
/// name (see [`strip_branding`]).
pub fn shorten_model_name(model: String) -> (r: String)
    ensures
        r@ == strip_branding(model@, BRANDING_COUNT as nat),
{
    let mut m = chars_of(model.as_str());
    let empty: Vec<char> = Vec::new();
    let mut i: usize = 0;
    while i < BRANDING_COUNT
        invariant
            i <= BRANDING_COUNT,
            m@ == strip_branding(model@, i as nat),
            empty@ == Seq::<char>::empty(),
        decreases BRANDING_COUNT - i,
    {
        let p = branding_chars(i);
        m = replace(&m, &p, &empty);
        i = i + 1;
    }
    string_from_chars(&m)
}

/// `model name`
pub open spec fn model_key() -> Seq<char> {
    seq!['m', 'o', 'd', 'e', 'l', ' ', 'n', 'a', 'm', 'e']
}

/// `cpu cores`
pub open spec fn cores_key() -> Seq<char> {
    seq!['c', 'p', 'u', ' ', 'c', 'o', 'r', 'e', 's']
}

/// The CPU line.
pub struct Cpu {
    pub header: String,
    /// The model name as the kernel reports it.
    pub model: String,
    /// The number of cores, where known.
    pub cores: Option<u32>,
    /// Whether to add the core count to the line.
    pub show_core_count: bool,
    /// Whether to remove branding words from the model name.
    pub shorten_model: bool,
}

/// The core count in a cpu-info map: the value of `cpu cores` read as a
/// `u32`, where present and well formed.
pub open spec fn cores_of(m: Map<Seq<char>, Seq<char>>) -> Option<u32> {
    if m.contains_key(cores_key()) {
        parse_u32(m[cores_key()])
    } else {
        None
    }
}

/// The rendering of a CPU line: the model, shortened where asked for, then
/// ` (<cores>)` where asked for and known.
pub open spec fn cpu_text(model: Seq<char>, cores: Option<u32>, show: bool, shorten: bool) -> Seq<
    char,
> {
    let m = if shorten {
        strip_branding(model, BRANDING_COUNT as nat)
    } else {
        model
    };
    match cores {
        Some(n) if show => m + seq![' ', '('] + decimal(n as nat) + seq![')'],
        _ => m,
    }
}

impl Cpu {
    /// A CPU line for `model` with `cores`, shortened and with the core
    /// count.
    pub fn new(model: String, cores: Option<u32>) -> (r: Self)
        ensures
            r.header@ == seq!['C', 'P', 'U'],
            r.model == model,
            r.cores == cores,
            r.show_core_count,
            r.shorten_model,
    {
        let header = string_from_chars(&vec!['C', 'P', 'U']);
        Cpu { header, model, cores, show_core_count: true, shorten_model: true }
    }

    /// The CPU line for the contents of the cpu-info file; `None` where the
    /// file could not be read (`contents` is `None`) or names no model.
    pub fn from_contents(contents: Option<&str>) -> (r: Option<Self>)
        ensures
            contents is None ==> r is None,
            contents matches Some(c) ==> {
                let m = entries_map(lines(c@), ':', false);
                if m.contains_key(model_key()) {
                    r matches Some(x) && x.model@ == m[model_key()] && x.cores == cores_of(m)
                        && x.show_core_count && x.shorten_model && x.header@ == seq!['C', 'P', 'U']
                } else {
                    r is None
                }
            },
    {
        let c = match contents {
            Some(c) => c,
            None => {
                return None;
            },
        };
        let map = parse(c);
        proof {
            reveal_strlit("model name");
            reveal_strlit("cpu cores");
        }
        assert("model name"@ =~= model_key());
        assert("cpu cores"@ =~= cores_key());
        let model = match map.get("model name") {
            Some(m) => m.clone(),
            None => {
                return None;
            },
        };
        let cores = match map.get("cpu cores") {
            Some(n) => {
                let v = chars_of(n.as_str());
                assert(v@.subrange(0, v.len() as int) =~= n@);
                parse_u32_in(&v, 0, v.len())
            },
            None => None,
        };
        Some(Cpu::new(model, cores))
    }

    /// The rendered CPU line (see [`cpu_text`]).
    pub fn value(&self) -> (r: String)
        ensures
            r@ == cpu_text(self.model@, self.cores, self.show_core_count, self.shorten_model),
    {
        let model = if self.shorten_model {
            shorten_model_name(self.model.clone())
        } else {
            self.model.clone()
        };
        let mut out = chars_of(model.as_str());
        match self.cores {
            Some(n) => {
                if self.show_core_count {
                    push_all(&mut out, &vec![' ', '(']);
                    push_decimal(&mut out, n as u128);
                    out.push(')');
                }
            },
            None => {},
        }
        assert(out@ =~= cpu_text(self.model@, self.cores, self.show_core_count, self.shorten_model));
        string_from_chars(&out)
    }
}

} // verus!
