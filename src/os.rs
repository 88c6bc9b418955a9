//! The distribution, architecture and kernel lines.

use vstd::prelude::*;

use crate::kv::{entries_map, parse_key_values, KeyMap};
use crate::text::{chars_of, lines, push_all, string_from_chars, trim_end_by, trim_end_range, Strip};

verus! {

/// Parses the contents of the os-release file (`KEY="VALUE"` lines) into a
/// map; values lose one layer of double quotes, and lines without `=` are
/// skipped.
pub fn parse(contents: &str) -> (r: KeyMap<String>)
    ensures
        r@ == entries_map(lines(contents@), '=', true),
{
    match parse_key_values(contents, '=', true, false) {
        Some(m) => m,
        None => KeyMap::new(),
    }
}

/// `NAME`
pub open spec fn name_key() -> Seq<char> {
    seq!['N', 'A', 'M', 'E']
}

/// `VERSION`
pub open spec fn version_key() -> Seq<char> {
    seq!['V', 'E', 'R', 'S', 'I', 'O', 'N']
}

/// The distribution that an os-release map names: `NAME`, followed by a
/// space and `VERSION` where there is one; `None` without `NAME`.
pub open spec fn distro_text(m: Map<Seq<char>, Seq<char>>) -> Option<Seq<char>> {
    if !m.contains_key(name_key()) {
        None
    } else if m.contains_key(version_key()) {
        Some(m[name_key()] + seq![' '] + m[version_key()])
    } else {
        Some(m[name_key()])
    }
}

/// Composes the distribution text of an os-release map (see
/// [`distro_text`]).
pub fn describe_distro(map: &KeyMap<String>) -> (r: Option<String>)
    ensures
        match distro_text(map@) {
            Some(t) => r matches Some(s) && s@ == t,
            None => r is None,
        },
{
    proof {
        reveal_strlit("NAME");
        reveal_strlit("VERSION");
    }
    assert("NAME"@ =~= name_key());
    assert("VERSION"@ =~= version_key());
    let name = match map.get("NAME") {
        Some(n) => n,
        None => {
            return None;
        },
    };
    match map.get("VERSION") {
        Some(version) => {
            let mut out = chars_of(name.as_str());
            out.push(' ');
            push_all(&mut out, &chars_of(version.as_str()));
            assert(out@ =~= name@ + seq![' '] + version@);
            Some(string_from_chars(&out))
        },
        None => Some(name.clone()),
    }
}

/// The distribution line.
pub struct Distro {
    pub header: String,
    /// The distribution's name and version, where known.
    pub name: Option<String>,
}

impl Distro {
    /// The distribution line for the contents of the os-release file; the
    /// name is absent where the file could not be read (`contents` is
    /// `None`) or names no distribution.
    pub fn from_contents(contents: Option<&str>) -> (r: Self)
        ensures
            r.header@ == seq!['O', 'S'],
            contents is None ==> r.name is None,
            contents matches Some(c) ==> match distro_text(entries_map(lines(c@), '=', true)) {
                Some(t) => r.name matches Some(s) && s@ == t,
                None => r.name is None,
            },
    {
        let header = string_from_chars(&vec!['O', 'S']);
        let name = match contents {
            Some(c) => describe_distro(&parse(c)),
            None => None,
        };
        Distro { header, name }
    }

    /// The distribution text, where known.
    pub fn value(&self) -> (r: Option<String>)
        ensures
            r == self.name,
    {
        self.name.clone()
    }
}

/// The architecture line.
pub struct Architechture {
    pub header: String,
    /// The architecture the program was built for, such as `x86_64`.
    pub architechture: String,
}

impl Architechture {
    /// The architecture line for `arch`.
    pub fn new(arch: &str) -> (r: Self)
        ensures
            r.header@ == seq!['A', 'r', 'c', 'h'],
            r.architechture@ == arch@,
    {
        let header = string_from_chars(&vec!['A', 'r', 'c', 'h']);
        Architechture { header, architechture: arch.to_owned() }
    }

    /// The architecture text.
    pub fn value(&self) -> (r: String)
        ensures
            r == self.architechture,
    {
        self.architechture.clone()
    }
}

/// The kernel line.
pub struct Kernel {
    pub header: String,
    /// The kernel release, where known.
    pub version: Option<String>,
}

/// The kernel release in the contents of the kernel-release file: the text
/// without trailing whitespace and newline.
pub fn kernel_release(contents: &str) -> (r: String)
    ensures
        r@ == trim_end_by(contents@, Strip::Space),
{
    let v = chars_of(contents);
    let b = trim_end_range(&v, 0, v.len(), &Strip::Space);
    assert(v@.subrange(0, v.len() as int) =~= contents@);
    string_from_chars(&crate::text::copy_range(&v, 0, b))
}

impl Kernel {
    /// The kernel line for the contents of the kernel-release file; the
    /// version is absent where the file could not be read.
    pub fn from_contents(contents: Option<&str>) -> (r: Self)
        ensures
            r.header@ == seq!['K', 'e', 'r', 'n', 'e', 'l'],
            contents is None ==> r.version is None,
            contents matches Some(c) ==> r.version matches Some(s) && s@ == trim_end_by(
                c@,
                Strip::Space,
            ),
    {
        let header = string_from_chars(&vec!['K', 'e', 'r', 'n', 'e', 'l']);
        let version = match contents {
            Some(c) => Some(kernel_release(c)),
            None => None,
        };
        Kernel { header, version }
    }

    /// The kernel release, where known.
    pub fn value(&self) -> (r: Option<String>)
        ensures
            r == self.version,
    {
        self.version.clone()
    }
}

} // verus!
