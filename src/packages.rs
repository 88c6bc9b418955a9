//! The packages line: how many packages each package manager lists.

use vstd::prelude::*;

use crate::text::{chars_of, decimal, push_all, push_decimal, string_from_chars};

verus! {

/// A package manager: the program to run and the arguments that make it
/// list the installed packages, one per line.
pub struct PackageManager {
    pub name: String,
    /// Arguments to list installed packages.
    pub args: Vec<String>,
}

impl PackageManager {
    /// A package manager run as `name` with `args`.
    pub fn new(name: &str, args: &[&str]) -> (r: Self)
        ensures
            r.name@ == name@,
            r.args@.len() == args@.len(),
            forall|i: int| 0 <= i < args@.len() ==> #[trigger] r.args@[i]@ == args@[i]@,
    {
        let mut out: Vec<String> = Vec::new();
        let mut i: usize = 0;
        while i < args.len()
            invariant
                i <= args@.len(),
                out@.len() == i,
                forall|j: int| 0 <= j < i ==> #[trigger] out@[j]@ == args@[j]@,
            decreases args@.len() - i,
        {
            out.push(args[i].to_owned());
            i = i + 1;
        }
        PackageManager { name: name.to_owned(), args: out }
    }
}

/// The package managers that are probed, in order: pacman, dpkg, rpm, apk,
/// xbps-query and flatpak.
pub fn package_managers() -> (r: Vec<PackageManager>)
    ensures
        r@.len() == 6,
        r@[0].name@ == "pacman"@ && r@[0].args@.len() == 2 && r@[0].args@[0]@ == "--query"@
            && r@[0].args@[1]@ == "--quiet"@,
        r@[1].name@ == "dpkg"@ && r@[1].args@.len() == 1 && r@[1].args@[0]@ == "--get-selections"@,
        r@[2].name@ == "rpm"@ && r@[2].args@.len() == 2 && r@[2].args@[0]@ == "--query"@
            && r@[2].args@[1]@ == "--all"@,
        r@[3].name@ == "apk"@ && r@[3].args@.len() == 1 && r@[3].args@[0]@ == "info"@,
        r@[4].name@ == "xbps-query"@ && r@[4].args@.len() == 1 && r@[4].args@[0]@
            == "--list-pkgs"@,
        r@[5].name@ == "flatpak"@ && r@[5].args@.len() == 1 && r@[5].args@[0]@ == "list"@,
{
    let mut r: Vec<PackageManager> = Vec::new();
    r.push(PackageManager::new("pacman", &["--query", "--quiet"]));
    r.push(PackageManager::new("dpkg", &["--get-selections"]));
    r.push(PackageManager::new("rpm", &["--query", "--all"]));
    r.push(PackageManager::new("apk", &["info"]));
    r.push(PackageManager::new("xbps-query", &["--list-pkgs"]));
    r.push(PackageManager::new("flatpak", &["list"]));
    r
}

/// The number of `\n` bytes in `s`.
pub open spec fn newlines(s: Seq<u8>) -> nat
    decreases s.len(),
{
    if s.len() == 0 {
        0
    } else {
        newlines(s.drop_last()) + if s.last() == 10 {
            1nat
        } else {
            0nat
        }
    }
}

/// The number of lines in the output `s`, as `str::lines` counts them: one
/// per `\n`, and one more for text after the last `\n`.
pub open spec fn line_count(s: Seq<u8>) -> nat {
    newlines(s) + if s.len() > 0 && s.last() != 10 {
        1nat
    } else {
        0nat
    }
}

/// Counts the lines of a package listing (see [`line_count`]); `u32::MAX`
/// where there are more.
pub fn count_lines(output: &[u8]) -> (r: u32)
    ensures
        r == (if line_count(output@) > u32::MAX {
            u32::MAX as nat
        } else {
            line_count(output@)
        }),
{
    let mut n: usize = 0;
    let mut i: usize = 0;
    while i < output.len()
        invariant
            i <= output@.len(),
            n == newlines(output@.subrange(0, i as int)),
            n <= i,
        decreases output@.len() - i,
    {
        assert(output@.subrange(0, i + 1).drop_last() =~= output@.subrange(0, i as int));
        if output[i] == 10 {
            n = n + 1;
        }
        i = i + 1;
    }
    assert(output@.subrange(0, i as int) =~= output@);
    let total: u128 = if output.len() > 0 && output[output.len() - 1] != 10 {
        n as u128 + 1
    } else {
        n as u128
    };
    if total > u32::MAX as u128 {
        u32::MAX
    } else {
        total as u32
    }
}

/// The package count of one package manager.
pub struct PackageCount {
    pub count: u32,
    pub package_manager: String,
}

/// The packages line.
pub struct Packages {
    /// The counts of the package managers found, in the order probed.
    pub package_counts: Vec<PackageCount>,
    pub header: String,
    /// Whether to show each package manager's count (`count (manager)`)
    /// rather than the total.
    pub show_package_managers: bool,
}

/// `<count> (<manager>)`
pub open spec fn count_item(c: PackageCount) -> Seq<char> {
    decimal(c.count as nat) + seq![' ', '('] + c.package_manager@ + seq![')']
}

/// The items of `cs` joined by `, `.
pub open spec fn counts_list(cs: Seq<PackageCount>) -> Seq<char>
    decreases cs.len(),
{
    if cs.len() == 0 {
        seq![]
    } else if cs.len() == 1 {
        count_item(cs[0])
    } else {
        counts_list(cs.drop_last()) + seq![',', ' '] + count_item(cs.last())
    }
}

/// The sum of the counts of `cs`.
pub open spec fn total_count(cs: Seq<PackageCount>) -> nat
    decreases cs.len(),
{
    if cs.len() == 0 {
        0
    } else {
        total_count(cs.drop_last()) + cs.last().count as nat
    }
}

/// The rendering of a packages line: the list of counts, or their total;
/// `None` where no package manager was found.
pub open spec fn packages_text(cs: Seq<PackageCount>, show_managers: bool) -> Option<Seq<char>> {
    if cs.len() == 0 {
        None
    } else if show_managers {
        Some(counts_list(cs))
    } else {
        Some(decimal(total_count(cs)))
    }
}

impl Packages {
    /// A packages line for `counts`, showing each package manager.
    pub fn new(counts: Vec<PackageCount>) -> (r: Self)
        ensures
            r.package_counts == counts,
            r.header@ == seq!['P', 'a', 'c', 'k', 'a', 'g', 'e', 's'],
            r.show_package_managers,
    {
        let header = string_from_chars(&vec!['P', 'a', 'c', 'k', 'a', 'g', 'e', 's']);
        Packages { package_counts: counts, header, show_package_managers: true }
    }

    /// The rendered packages line (see [`packages_text`]).
    pub fn value(&self) -> (r: Option<String>)
        ensures
            match packages_text(self.package_counts@, self.show_package_managers) {
                Some(t) => r matches Some(s) && s@ == t,
                None => r is None,
            },
    {
        let cs = &self.package_counts;
        if cs.len() == 0 {
            return None;
        }
        let mut out: Vec<char> = Vec::new();
        if self.show_package_managers {
            let mut i: usize = 0;
            while i < cs.len()
                invariant
                    i <= cs@.len(),
                    out@ == counts_list(cs@.subrange(0, i as int)),
                decreases cs@.len() - i,
            {
                if i > 0 {
                    push_all(&mut out, &vec![',', ' ']);
                }
                push_decimal(&mut out, cs[i].count as u128);
                push_all(&mut out, &vec![' ', '(']);
                push_all(&mut out, &chars_of(cs[i].package_manager.as_str()));
                out.push(')');
                assert(cs@.subrange(0, i + 1).drop_last() =~= cs@.subrange(0, i as int));
                assert(out@ =~= counts_list(cs@.subrange(0, i + 1)));
                i = i + 1;
            }
        } else {
            let mut total: u128 = 0;
            let mut i: usize = 0;
            while i < cs.len()
                invariant
                    i <= cs@.len(),
                    total == total_count(cs@.subrange(0, i as int)),
                    total <= i * 4294967295,
                decreases cs@.len() - i,
            {
                assert(cs@.subrange(0, i + 1).drop_last() =~= cs@.subrange(0, i as int));
                total = total + cs[i].count as u128;
                i = i + 1;
            }
            push_decimal(&mut out, total);
        }
        assert(cs@.subrange(0, cs@.len() as int) =~= cs@);
        Some(string_from_chars(&out))
    }
}

} // verus!
