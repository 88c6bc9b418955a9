//! The shell line: the user's shell, as a full path or as its file name.

use vstd::prelude::*;

use crate::text::{chars_of, copy_range, string_from_chars};

verus! {

/// The length of the part of `s` up to and including its last `c`; zero
/// where `s` holds no `c`.
pub open spec fn after_last(s: Seq<char>, c: char) -> int
    decreases s.len(),
{
    if s.len() == 0 {
        0
    } else if s.last() == c {
        s.len() as int
    } else {
        after_last(s.drop_last(), c)
    }
}

proof fn lemma_after_last(s: Seq<char>, c: char)
    ensures
        0 <= after_last(s, c) <= s.len(),
        after_last(s, c) > 0 ==> s[after_last(s, c) - 1] == c,
    decreases s.len(),
{
    if s.len() > 0 && s.last() != c {
        lemma_after_last(s.drop_last(), c);
    }
}

/// The final component of the path `s`, as `Path::file_name` gives it:
/// components are separated by `/`, empty and `.` components are ignored;
/// `None` where no component is left or the last one is `..`.
pub open spec fn file_name_of(s: Seq<char>) -> Option<Seq<char>>
    decreases s.len(),
{
    if s.len() == 0 {
        None
    } else {
        let j = after_last(s, '/');
        let seg = s.subrange(j, s.len() as int);
        if seg.len() == 0 || seg == seq!['.'] {
            if 0 < j <= s.len() {
                file_name_of(s.subrange(0, j - 1))
            } else {
                None
            }
        } else if seg == seq!['.', '.'] {
            None
        } else {
            Some(seg)
        }
    }
}

/// Where the part of `v[0..hi]` up to its last `c` ends.
fn after_last_in(v: &Vec<char>, hi: usize, c: char) -> (r: usize)
    requires
        hi <= v.len(),
    ensures
        r <= hi,
        r == after_last(v@.subrange(0, hi as int), c),
{
    let mut k: usize = hi;
    while k > 0 && v[k - 1] != c
        invariant
            k <= hi <= v.len(),
            after_last(v@.subrange(0, hi as int), c) == after_last(v@.subrange(0, k as int), c),
        decreases k,
    {
        assert(v@.subrange(0, k as int).drop_last() =~= v@.subrange(0, k - 1));
        k = k - 1;
    }
    k
}

/// The final component of `path` (see [`file_name_of`]).
pub fn file_name(path: &str) -> (r: Option<String>)
    ensures
        match file_name_of(path@) {
            Some(t) => r matches Some(s) && s@ == t,
            None => r is None,
        },
{
    let v = chars_of(path);
    let mut hi: usize = v.len();
    assert(v@.subrange(0, hi as int) =~= path@);
    while hi > 0
        invariant
            hi <= v.len(),
            file_name_of(path@) == file_name_of(v@.subrange(0, hi as int)),
        decreases hi,
    {
        let ghost s = v@.subrange(0, hi as int);
        let j = after_last_in(&v, hi, '/');
        proof {
            lemma_after_last(s, '/');
        }
        let ghost seg = s.subrange(j as int, hi as int);
        assert(seg =~= v@.subrange(j as int, hi as int));
        if j == hi || (hi - j == 1 && v[j] == '.') {
            assert(seg.len() == 0 || seg =~= seq!['.']);
            if j == 0 {
                return None;
            }
            assert(s.subrange(0, j - 1) =~= v@.subrange(0, j - 1));
            hi = j - 1;
        } else if hi - j == 2 && v[j] == '.' && v[j + 1] == '.' {
            assert(seg =~= seq!['.', '.']);
            return None;
        } else {
            assert(seg.len() != 0);
            assert(seg != seq!['.']) by {
                if seg.len() == 1 {
                    assert(seg[0] == v@[j as int]);
                }
            }
            assert(seg != seq!['.', '.']) by {
                if seg.len() == 2 {
                    assert(seg[0] == v@[j as int]);
                    assert(seg[1] == v@[j + 1]);
                }
            }
            return Some(string_from_chars(&copy_range(&v, j, hi)));
        }
    }
    None
}

/// The shell line.
pub struct Shell {
    /// The path of the user's shell, where known.
    pub shell: Option<String>,
    pub header: String,
    /// Whether to show the full path of the shell rather than its file name.
    pub show_path: bool,
}

/// The rendering of a shell line: the path, or its final component unless
/// the full path is asked for.
pub open spec fn shell_text(shell: Option<Seq<char>>, show_path: bool) -> Option<Seq<char>> {
    match shell {
        None => None,
        Some(p) => if show_path {
            Some(p)
        } else {
            file_name_of(p)
        },
    }
}

impl Shell {
    /// A shell line for `shell`, showing the file name only.
    pub fn new(shell: Option<String>) -> (r: Self)
        ensures
            r.shell == shell,
            r.header@ == seq!['S', 'h', 'e', 'l', 'l'],
            !r.show_path,
    {
        let header = string_from_chars(&vec!['S', 'h', 'e', 'l', 'l']);
        Shell { shell, header, show_path: false }
    }

    /// The rendered shell (see [`shell_text`]); `None` where the shell is
    /// unknown or its path has no final component.
    pub fn value(&self) -> (r: Option<String>)
        ensures
            match shell_text(
                match self.shell {
                    Some(s) => Some(s@),
                    None => None,
                },
                self.show_path,
            ) {
                Some(t) => r matches Some(s) && s@ == t,
                None => r is None,
            },
    {
        match &self.shell {
            None => None,
            Some(p) => {
                if self.show_path {
                    Some(p.clone())
                } else {
                    file_name(p.as_str())
                }
            },
        }
    }
}

} // verus!
