//! The title line: `user@hostname` over a rule of dashes.

use vstd::prelude::*;

use crate::text::string_from_chars;

verus! {

/// The title line.
pub struct Title {
    /// The user name, where known.
    pub user: Option<String>,
    /// The host name, where known.
    pub hostname: Option<String>,
}

/// The length of the rule under a title for `user` and `host`: their
/// lengths in bytes (as `str::len` gives them) added, `usize::MAX` where
/// larger.
pub open spec fn rule_len(user: Seq<char>, host: Seq<char>) -> nat {
    let n = (vstd::utf8::encode_utf8(user).len() as usize) as nat + (vstd::utf8::encode_utf8(
        host,
    ).len() as usize) as nat;
    if n > usize::MAX {
        usize::MAX as nat
    } else {
        n
    }
}

impl Title {
    /// A title line for `user` at `hostname`.
    pub fn new(user: Option<String>, hostname: Option<String>) -> (r: Self)
        ensures
            r.user == user,
            r.hostname == hostname,
    {
        Title { user, hostname }
    }

    /// The rule of dashes under the title, as long as the user and host
    /// names together in bytes; `None` unless both are known.
    pub fn separator(&self) -> (r: Option<String>)
        ensures
            match (self.user, self.hostname) {
                (Some(u), Some(h)) => r matches Some(s) && s@ == Seq::new(
                    rule_len(u@, h@),
                    |i: int| '-',
                ),
                _ => r is None,
            },
    {
        match (&self.user, &self.hostname) {
            (Some(u), Some(h)) => {
                let n = u.as_str().len().saturating_add(h.as_str().len());
                let mut out: Vec<char> = Vec::new();
                let mut i: usize = 0;
                while i < n
                    invariant
                        i <= n,
                        out@ == Seq::new(i as nat, |j: int| '-'),
                    decreases n - i,
                {
                    out.push('-');
                    i = i + 1;
                    assert(out@ =~= Seq::new(i as nat, |j: int| '-'));
                }
                assert(out@ =~= Seq::new(rule_len(u@, h@), |j: int| '-'));
                Some(string_from_chars(&out))
            },
            _ => None,
        }
    }
}

} // verus!
