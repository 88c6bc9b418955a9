//! The CPU model as text, from the first matching line of the cpu-info
//! file.

use vstd::prelude::*;

use crate::cpu::model_key;
use crate::kv::{has_delim, split_entry, value_of};
use crate::text::{chars_of, copy_range, line_at, lines, matches_at, string_from_chars};

verus! {

/// Whether `p` occurs in `s`.
pub open spec fn contains(s: Seq<char>, p: Seq<char>) -> bool {
    exists|i: int| 0 <= i && i + p.len() <= s.len() && #[trigger] s.subrange(i, i + p.len()) == p
}

/// Whether `p` occurs in `v`.
fn contains_chars(v: &Vec<char>, p: &Vec<char>) -> (r: bool)
    ensures
        r == contains(v@, p@),
{
    let mut i: usize = 0;
    while i < v.len()
        invariant
            i <= v.len(),
            forall|j: int|
                0 <= j < i && j + p@.len() <= v@.len() ==> #[trigger] v@.subrange(j, j + p@.len())
                    != p@,
        decreases v.len() - i,
    {
        if matches_at(v, i, p) {
            return true;
        }
        i = i + 1;
    }
    let last = matches_at(v, i, p);
    assert(last == contains(v@, p@)) by {
        if contains(v@, p@) {
            let j = choose|j: int|
                0 <= j && j + p@.len() <= v@.len() && #[trigger] v@.subrange(j, j + p@.len()) == p@;
            assert(j <= v@.len());
        }
    }
    last
}

/// The model that the cpu-info lines `ls` give: the value after the first
/// `:` of the first line that mentions `model name`; `None` where no line
/// does, or that line holds no `:`.
pub open spec fn first_model(ls: Seq<Seq<char>>) -> Option<Seq<char>>
    decreases ls.len(),
{
    if ls.len() == 0 {
        None
    } else if contains(ls[0], model_key()) {
        if has_delim(ls[0], ':') {
            Some(value_of(ls[0], ':', false))
        } else {
            None
        }
    } else {
        first_model(ls.drop_first())
    }
}

/// Reads the CPU model from the contents of the cpu-info file (see
/// [`first_model`]).
pub fn parse_proc_cpuinfo(contents: &str) -> (r: Option<String>)
    ensures
        match first_model(lines(contents@)) {
            Some(t) => r matches Some(s) && s@ == t,
            None => r is None,
        },
{
    let v = chars_of(contents);
    let n = v.len();
    let key = vec!['m', 'o', 'd', 'e', 'l', ' ', 'n', 'a', 'm', 'e'];
    assert(key@ =~= model_key());
    let mut pos: usize = 0;
    assert(v@.subrange(0, n as int) =~= contents@);
    while pos < n
        invariant
            pos <= n == v.len(),
            key@ == model_key(),
            first_model(lines(contents@)) == first_model(lines(v@.subrange(pos as int, n as int))),
        decreases n - pos,
    {
        let (end, next) = line_at(&v, pos);
        let ghost line = v@.subrange(pos as int, end as int);
        let ghost rest = v@.subrange(pos as int, n as int);
        assert(lines(rest) == seq![line] + lines(v@.subrange(next as int, n as int)));
        assert((seq![line] + lines(v@.subrange(next as int, n as int))).drop_first() =~= lines(
            v@.subrange(next as int, n as int),
        ));
        let l = copy_range(&v, pos, end);
        if contains_chars(&l, &key) {
            return match split_entry(&v, pos, end, ':', false) {
                Some((_, _, va, vb)) => Some(string_from_chars(&copy_range(&v, va, vb))),
                None => None,
            };
        }
        pos = next;
    }
    assert(v@.subrange(pos as int, n as int) =~= Seq::<char>::empty());
    None
}

} // verus!
