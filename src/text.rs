//! Character-level text utilities with their mathematical models.
//!
//! Text is handled as a sequence of `char`s; each executable helper here is
//! proved against a spec function that states the standard library behaviour
//! it reproduces (`char::is_whitespace`, `str::lines`, `str::trim_matches`,
//! `str::parse::<u32>`, `str::replace`, decimal `Display`).

use vstd::prelude::*;

verus! {

broadcast use vstd::string::group_string_axioms;

/// Collects the characters of `s` into a vector.
pub fn chars_of(s: &str) -> (r: Vec<char>)
    ensures
        r@ == s@,
{
    let mut out: Vec<char> = Vec::new();
    for c in it: s.chars()
        invariant
            out@ == it.seq().subrange(0, it.index() as int),
            it.seq() == s@,
    {
        out.push(c);
    }
    out
}

/// Relies on `FromIterator<char> for String`: the string holds exactly the
/// given characters, in order.
#[verifier::external_body]
pub(crate) fn string_from_chars(v: &Vec<char>) -> (r: String)
    ensures
        r@ == v@,
{
    v.iter().collect()
}

/// Copies the characters `v[lo..hi]` into a new vector.
pub fn copy_range(v: &Vec<char>, lo: usize, hi: usize) -> (r: Vec<char>)
    requires
        lo <= hi <= v.len(),
    ensures
        r@ == v@.subrange(lo as int, hi as int),
{
    let mut out: Vec<char> = Vec::new();
    let mut i: usize = lo;
    while i < hi
        invariant
            lo <= i <= hi <= v.len(),
            out@ == v@.subrange(lo as int, i as int),
        decreases hi - i,
    {
        out.push(v[i]);
        i = i + 1;
    }
    out
}

/// Appends all characters of `src` to `dst`.
pub fn push_all(dst: &mut Vec<char>, src: &Vec<char>)
    ensures
        final(dst)@ == old(dst)@ + src@,
{
    let mut i: usize = 0;
    while i < src.len()
        invariant
            i <= src.len(),
            dst@ == old(dst)@ + src@.subrange(0, i as int),
        decreases src.len() - i,
    {
        dst.push(src[i]);
        i = i + 1;
    }
}

/// Whether `c` has the Unicode `White_Space` property (what
/// `char::is_whitespace` tests).
pub open spec fn is_ws(c: char) -> bool {
    let u = c as u32;
    ||| 0x09 <= u <= 0x0D
    ||| u == 0x20
    ||| u == 0x85
    ||| u == 0xA0
    ||| u == 0x1680
    ||| 0x2000 <= u <= 0x200A
    ||| u == 0x2028
    ||| u == 0x2029
    ||| u == 0x202F
    ||| u == 0x205F
    ||| u == 0x3000
}

/// Executable form of [`is_ws`].
pub fn is_whitespace(c: char) -> (r: bool)
    ensures
        r == is_ws(c),
{
    let u = c as u32;
    (0x09 <= u && u <= 0x0D) || u == 0x20 || u == 0x85 || u == 0xA0 || u == 0x1680 || (0x2000
        <= u && u <= 0x200A) || u == 0x2028 || u == 0x2029 || u == 0x202F || u == 0x205F || u
        == 0x3000
}

/// A set of characters that a trim removes from the ends of a text.
pub enum Strip {
    /// Whitespace.
    Space,
    /// Whitespace and `,`.
    SpaceOrComma,
    /// Whitespace, `k` and `B` (a `kB` unit suffix).
    SpaceOrUnit,
}

/// Whether the trim `k` removes `c`.
pub open spec fn strips(k: Strip, c: char) -> bool {
    match k {
        Strip::Space => is_ws(c),
        Strip::SpaceOrComma => is_ws(c) || c == ',',
        Strip::SpaceOrUnit => is_ws(c) || c == 'k' || c == 'B',
    }
}

/// Executable form of [`strips`].
pub fn strips_char(k: &Strip, c: char) -> (r: bool)
    ensures
        r == strips(*k, c),
{
    match k {
        Strip::Space => is_whitespace(c),
        Strip::SpaceOrComma => is_whitespace(c) || c == ',',
        Strip::SpaceOrUnit => is_whitespace(c) || c == 'k' || c == 'B',
    }
}

/// `s` without its leading characters in `k`.
pub open spec fn trim_start_by(s: Seq<char>, k: Strip) -> Seq<char>
    decreases s.len(),
{
    if s.len() > 0 && strips(k, s[0]) {
        trim_start_by(s.drop_first(), k)
    } else {
        s
    }
}

/// `s` without its trailing characters in `k`.
pub open spec fn trim_end_by(s: Seq<char>, k: Strip) -> Seq<char>
    decreases s.len(),
{
    if s.len() > 0 && strips(k, s.last()) {
        trim_end_by(s.drop_last(), k)
    } else {
        s
    }
}

/// `s` without its leading and trailing characters in `k`
/// (`str::trim_matches`).
pub open spec fn trim_by(s: Seq<char>, k: Strip) -> Seq<char> {
    trim_end_by(trim_start_by(s, k), k)
}

/// `s` without leading and trailing whitespace (`str::trim`).
pub open spec fn trim(s: Seq<char>) -> Seq<char> {
    trim_by(s, Strip::Space)
}

/// Finds the bounds of `trim_by(v[lo..hi], k)` inside `v`.
pub fn trim_range(v: &Vec<char>, lo: usize, hi: usize, k: &Strip) -> (r: (usize, usize))
    requires
        lo <= hi <= v.len(),
    ensures
        lo <= r.0 <= r.1 <= hi,
        v@.subrange(r.0 as int, r.1 as int) == trim_by(v@.subrange(lo as int, hi as int), *k),
{
    let mut a: usize = lo;
    while a < hi && strips_char(k, v[a])
        invariant
            lo <= a <= hi <= v.len(),
            trim_start_by(v@.subrange(lo as int, hi as int), *k) == trim_start_by(
                v@.subrange(a as int, hi as int),
                *k,
            ),
        decreases hi - a,
    {
        assert(v@.subrange(a as int, hi as int).drop_first() =~= v@.subrange(
            a + 1,
            hi as int,
        ));
        a = a + 1;
    }
    assert(trim_start_by(v@.subrange(a as int, hi as int), *k) == v@.subrange(
        a as int,
        hi as int,
    ));
    let mut b: usize = hi;
    while b > a && strips_char(k, v[b - 1])
        invariant
            lo <= a <= b <= hi <= v.len(),
            trim_end_by(v@.subrange(a as int, hi as int), *k) == trim_end_by(
                v@.subrange(a as int, b as int),
                *k,
            ),
        decreases b - a,
    {
        assert(v@.subrange(a as int, b as int).drop_last() =~= v@.subrange(
            a as int,
            b - 1,
        ));
        b = b - 1;
    }
    (a, b)
}

/// Finds where `trim_end_by(v[lo..hi], k)` ends inside `v`.
pub fn trim_end_range(v: &Vec<char>, lo: usize, hi: usize, k: &Strip) -> (r: usize)
    requires
        lo <= hi <= v.len(),
    ensures
        lo <= r <= hi,
        v@.subrange(lo as int, r as int) == trim_end_by(v@.subrange(lo as int, hi as int), *k),
{
    let mut b: usize = hi;
    while b > lo && strips_char(k, v[b - 1])
        invariant
            lo <= b <= hi <= v.len(),
            trim_end_by(v@.subrange(lo as int, hi as int), *k) == trim_end_by(
                v@.subrange(lo as int, b as int),
                *k,
            ),
        decreases b - lo,
    {
        assert(v@.subrange(lo as int, b as int).drop_last() =~= v@.subrange(lo as int, b - 1));
        b = b - 1;
    }
    b
}

/// Whether every character of `v[lo..hi]` is an ASCII digit.
pub fn all_digits_in(v: &Vec<char>, lo: usize, hi: usize) -> (r: bool)
    requires
        lo <= hi <= v.len(),
    ensures
        r == all_digits(v@.subrange(lo as int, hi as int)),
{
    let mut i: usize = lo;
    while i < hi
        invariant
            lo <= i <= hi <= v.len(),
            all_digits(v@.subrange(lo as int, i as int)),
        decreases hi - i,
    {
        let c = v[i];
        if !('0' as u32 <= c as u32 && c as u32 <= '9' as u32) {
            assert(v@.subrange(lo as int, hi as int)[i - lo] == c);
            return false;
        }
        assert(v@.subrange(lo as int, i + 1) =~= v@.subrange(lo as int, i as int).push(c));
        i = i + 1;
    }
    true
}

/// The value of the decimal numeral `v[lo..hi]`, or `u32::MAX` where it is
/// larger.
pub fn digits_saturating(v: &Vec<char>, lo: usize, hi: usize) -> (r: u32)
    requires
        lo <= hi <= v.len(),
        all_digits(v@.subrange(lo as int, hi as int)),
    ensures
        r == (if digits_value(v@.subrange(lo as int, hi as int)) > u32::MAX {
            u32::MAX as nat
        } else {
            digits_value(v@.subrange(lo as int, hi as int))
        }),
{
    let ghost s = v@.subrange(lo as int, hi as int);
    let mut value: u64 = 0;
    let mut i: usize = lo;
    while i < hi
        invariant
            lo <= i <= hi <= v.len(),
            s == v@.subrange(lo as int, hi as int),
            all_digits(s),
            value == digits_value(v@.subrange(lo as int, i as int)),
            value <= u32::MAX,
        decreases hi - i,
    {
        let c = v[i];
        assert(s[i - lo] == c);
        assert(v@.subrange(lo as int, i + 1).drop_last() =~= v@.subrange(lo as int, i as int));
        value = value * 10 + (c as u32 - '0' as u32) as u64;
        if value > u32::MAX as u64 {
            proof {
                assert(s.subrange(0, i + 1 - lo) =~= v@.subrange(lo as int, i + 1));
                lemma_digits_value_prefix(s, i + 1 - lo);
            }
            return u32::MAX;
        }
        i = i + 1;
    }
    assert(v@.subrange(lo as int, i as int) =~= s);
    value as u32
}

/// Index of the first `c` in `s`, or `s.len()` when there is none.
pub open spec fn find_char(s: Seq<char>, c: char) -> int
    decreases s.len(),
{
    if s.len() == 0 {
        0
    } else if s[0] == c {
        0
    } else {
        1 + find_char(s.drop_first(), c)
    }
}

/// The first occurrence of `c` is at `i`, and there is none before it.
pub proof fn lemma_find_char(s: Seq<char>, c: char)
    ensures
        0 <= find_char(s, c) <= s.len(),
        find_char(s, c) < s.len() ==> s[find_char(s, c)] == c,
        forall|j: int| 0 <= j < find_char(s, c) ==> s[j] != c,
    decreases s.len(),
{
    if s.len() > 0 && s[0] != c {
        lemma_find_char(s.drop_first(), c);
        assert forall|j: int| 0 <= j < find_char(s, c) implies s[j] != c by {
            if j > 0 {
                assert(s[j] == s.drop_first()[j - 1]);
            }
        }
    }
}

/// Position of the first `c` in `v[lo..hi]`, or `hi`.
pub fn find_in(v: &Vec<char>, lo: usize, hi: usize, c: char) -> (r: usize)
    requires
        lo <= hi <= v.len(),
    ensures
        lo <= r <= hi,
        r - lo == find_char(v@.subrange(lo as int, hi as int), c),
{
    let mut i: usize = lo;
    while i < hi && v[i] != c
        invariant
            lo <= i <= hi <= v.len(),
            find_char(v@.subrange(lo as int, hi as int), c) == (i - lo) + find_char(
                v@.subrange(i as int, hi as int),
                c,
            ),
        decreases hi - i,
    {
        assert(v@.subrange(i as int, hi as int).drop_first() =~= v@.subrange(i + 1, hi as int));
        i = i + 1;
    }
    i
}

/// `l` without one trailing carriage return.
pub open spec fn strip_cr(l: Seq<char>) -> Seq<char> {
    if l.len() > 0 && l.last() == '\r' {
        l.drop_last()
    } else {
        l
    }
}

/// Where the text after the first line of `s` begins.
pub open spec fn next_line_start(s: Seq<char>) -> int {
    let i = find_char(s, '\n');
    if 0 <= i < s.len() {
        i + 1
    } else {
        s.len() as int
    }
}

/// The first line of `s`: the text before its first `\n`, without a `\r`
/// just before that `\n`. A last line without `\n` keeps a final `\r`.
pub open spec fn line_text(s: Seq<char>) -> Seq<char> {
    let i = find_char(s, '\n');
    if i < s.len() {
        strip_cr(s.subrange(0, i))
    } else {
        s.subrange(0, i)
    }
}

/// The lines of `s`, as `str::lines` yields them: split at `\n`, a `\r`
/// before a `\n` dropped, no line after a final `\n`.
pub open spec fn lines(s: Seq<char>) -> Seq<Seq<char>>
    decreases s.len(),
{
    if s.len() == 0 {
        seq![]
    } else {
        seq![line_text(s)] + lines(
            s.subrange(next_line_start(s), s.len() as int),
        )
    }
}

/// Finds the line of `v` that starts at `start`: returns where it ends (its
/// carriage return left out) and where the next one starts.
pub fn line_at(v: &Vec<char>, start: usize) -> (r: (usize, usize))
    requires
        start < v.len(),
    ensures
        start <= r.0 <= r.1 <= v.len(),
        start < r.1,
        v@.subrange(start as int, r.0 as int) == line_text(
            v@.subrange(start as int, v.len() as int),
        ),
        r.1 - start == next_line_start(v@.subrange(start as int, v.len() as int)),
        v@.subrange(r.1 as int, v.len() as int) == v@.subrange(start as int, v.len() as int).subrange(
            next_line_start(v@.subrange(start as int, v.len() as int)),
            v.len() - start,
        ),
{
    let ghost s = v@.subrange(start as int, v.len() as int);
    let e = find_in(v, start, v.len(), '\n');
    proof {
        lemma_find_char(s, '\n');
    }
    let next = if e < v.len() {
        e + 1
    } else {
        e
    };
    let mut end = e;
    if e < v.len() && end > start && v[end - 1] == '\r' {
        end = end - 1;
    }
    assert(s.subrange(0, find_char(s, '\n')) =~= v@.subrange(start as int, e as int));
    if e > start {
        assert(v@.subrange(start as int, e as int).drop_last() =~= v@.subrange(
            start as int,
            e - 1,
        ));
    }
    assert(v@.subrange(next as int, v.len() as int) =~= s.subrange(
        next_line_start(s),
        v.len() - start,
    ));
    (end, next)
}

/// Whether `c` is an ASCII digit.
pub open spec fn is_digit(c: char) -> bool {
    '0' as u32 <= c as u32 <= '9' as u32
}

/// The value of the ASCII digit `c`.
pub open spec fn digit_val(c: char) -> nat {
    (c as u32 - '0' as u32) as nat
}

/// The value of the decimal numeral `s` (its characters read as digits).
pub open spec fn digits_value(s: Seq<char>) -> nat
    decreases s.len(),
{
    if s.len() == 0 {
        0
    } else {
        digits_value(s.drop_last()) * 10 + digit_val(s.last())
    }
}

/// Whether every character of `s` is an ASCII digit.
pub open spec fn all_digits(s: Seq<char>) -> bool {
    forall|i: int| 0 <= i < s.len() ==> is_digit(#[trigger] s[i])
}

/// `s` without one leading `+`.
pub open spec fn drop_plus(s: Seq<char>) -> Seq<char> {
    if s.len() > 0 && s[0] == '+' {
        s.drop_first()
    } else {
        s
    }
}

/// What `str::parse::<u32>` returns: an optional `+`, then one or more ASCII
/// digits whose value fits in a `u32`; anything else is an error.
pub open spec fn parse_u32(s: Seq<char>) -> Option<u32> {
    let t = drop_plus(s);
    if t.len() > 0 && all_digits(t) && digits_value(t) <= u32::MAX {
        Some(digits_value(t) as u32)
    } else {
        None
    }
}

/// A longer numeral is worth at least as much as its prefix.
proof fn lemma_digits_value_prefix(s: Seq<char>, i: int)
    requires
        0 <= i <= s.len(),
    ensures
        digits_value(s.subrange(0, i)) <= digits_value(s),
    decreases s.len() - i,
{
    if i < s.len() {
        lemma_digits_value_prefix(s, i + 1);
        assert(s.subrange(0, i + 1).drop_last() =~= s.subrange(0, i));
    } else {
        assert(s.subrange(0, i) =~= s);
    }
}

/// Parses `v[lo..hi]` as `str::parse::<u32>` does.
pub fn parse_u32_in(v: &Vec<char>, lo: usize, hi: usize) -> (r: Option<u32>)
    requires
        lo <= hi <= v.len(),
    ensures
        r == parse_u32(v@.subrange(lo as int, hi as int)),
{
    let ghost s = v@.subrange(lo as int, hi as int);
    let mut a: usize = lo;
    if a < hi && v[a] == '+' {
        a = a + 1;
    }
    let ghost t = v@.subrange(a as int, hi as int);
    assert(t =~= drop_plus(s));
    if a == hi {
        assert(t.len() == 0);
        return None;
    }
    let mut value: u64 = 0;
    let mut i: usize = a;
    while i < hi
        invariant
            a <= i <= hi <= v.len(),
            t == v@.subrange(a as int, hi as int),
            t == drop_plus(s),
            s == v@.subrange(lo as int, hi as int),
            all_digits(v@.subrange(a as int, i as int)),
            value == digits_value(v@.subrange(a as int, i as int)),
            value <= u32::MAX,
        decreases hi - i,
    {
        let c = v[i];
        assert(v@.subrange(a as int, i + 1).drop_last() =~= v@.subrange(a as int, i as int));
        if !('0' as u32 <= c as u32 && c as u32 <= '9' as u32) {
            assert(!all_digits(t)) by {
                assert(t[i - a] == c);
            }
            return None;
        }
        value = value * 10 + (c as u32 - '0' as u32) as u64;
        if value > u32::MAX as u64 {
            proof {
                assert(t.subrange(0, i + 1 - a) =~= v@.subrange(a as int, i + 1));
                lemma_digits_value_prefix(t, i + 1 - a);
            }
            return None;
        }
        i = i + 1;
    }
    assert(v@.subrange(a as int, i as int) =~= t);
    Some(value as u32)
}

/// The ASCII digit for `d < 10`.
pub open spec fn digit_char(d: nat) -> char {
    ((d + 48) as u8) as char
}

/// The decimal numeral of `n`, as `Display` writes an unsigned integer.
pub open spec fn decimal(n: nat) -> Seq<char>
    decreases n,
{
    if n < 10 {
        seq![digit_char(n)]
    } else {
        decimal(n / 10).push(digit_char(n % 10))
    }
}

/// The decimal numeral of `n` is a non-empty string of digits worth `n`.
pub proof fn lemma_decimal(n: nat)
    ensures
        decimal(n).len() > 0,
        all_digits(decimal(n)),
        digits_value(decimal(n)) == n,
    decreases n,
{
    let d = digit_char(n % 10);
    assert(digit_val(d) == n % 10);
    assert(is_digit(d));
    if n >= 10 {
        lemma_decimal(n / 10);
        let x = decimal(n / 10);
        assert(decimal(n) == x.push(d));
        assert(x.push(d).drop_last() =~= x);
        assert forall|i: int| 0 <= i < x.len() + 1 implies is_digit(#[trigger] x.push(d)[i]) by {
            if i < x.len() {
                assert(x.push(d)[i] == x[i]);
            }
        }
        assert(digits_value(x.push(d)) == digits_value(x) * 10 + digit_val(d));
        assert(n == (n / 10) * 10 + n % 10);
    } else {
        assert(seq![d].drop_last() =~= Seq::<char>::empty());
        assert(digits_value(seq![d]) == digits_value(Seq::<char>::empty()) * 10 + digit_val(d));
        assert(is_digit(seq![d][0]));
    }
}

/// Removing strippable characters from the front of `w + t` leaves `t` where
/// `t` does not start with one.
pub proof fn lemma_trim_start_prefix(w: Seq<char>, t: Seq<char>, k: Strip)
    requires
        forall|i: int| 0 <= i < w.len() ==> strips(k, #[trigger] w[i]),
        t.len() == 0 || !strips(k, t[0]),
    ensures
        trim_start_by(w + t, k) == t,
    decreases w.len(),
{
    if w.len() > 0 {
        assert((w + t).drop_first() =~= w.drop_first() + t);
        assert(strips(k, w[0]));
        lemma_trim_start_prefix(w.drop_first(), t, k);
    } else {
        assert(w + t =~= t);
    }
}

/// Removing strippable characters from the end of `t + u` leaves `t` where
/// `t` does not end with one.
pub proof fn lemma_trim_end_suffix(t: Seq<char>, u: Seq<char>, k: Strip)
    requires
        forall|i: int| 0 <= i < u.len() ==> strips(k, #[trigger] u[i]),
        t.len() == 0 || !strips(k, t.last()),
    ensures
        trim_end_by(t + u, k) == t,
    decreases u.len(),
{
    if u.len() > 0 {
        assert((t + u).drop_last() =~= t + u.drop_last());
        assert(strips(k, u[u.len() - 1]));
        lemma_trim_end_suffix(t, u.drop_last(), k);
    } else {
        assert(t + u =~= t);
    }
}

/// Appends the decimal numeral of `n` to `out`.
pub fn push_decimal(out: &mut Vec<char>, n: u128)
    ensures
        final(out)@ == old(out)@ + decimal(n as nat),
    decreases n,
{
    if n >= 10 {
        push_decimal(out, n / 10);
    }
    let d: u8 = (n % 10) as u8;
    out.push((d + 48) as char);
    proof {
        if n >= 10 {
            assert(decimal(n as nat) == decimal((n / 10) as nat).push(digit_char((n % 10) as nat)));
        }
    }
}

/// `s` with each non-overlapping occurrence of `p`, searched from the left,
/// replaced by `r` (what `str::replace` returns for a non-empty `p`).
pub open spec fn replace_all(s: Seq<char>, p: Seq<char>, r: Seq<char>) -> Seq<char>
    decreases s.len(),
{
    if p.len() == 0 || s.len() < p.len() {
        s
    } else if s.subrange(0, p.len() as int) == p {
        r + replace_all(s.subrange(p.len() as int, s.len() as int), p, r)
    } else {
        seq![s[0]] + replace_all(s.drop_first(), p, r)
    }
}

/// Whether no occurrence of `p` in `a + b` starts inside `a` and ends inside
/// `b`.
pub open spec fn no_straddle(a: Seq<char>, b: Seq<char>, p: Seq<char>) -> bool {
    forall|i: int|
        0 <= i < a.len() && a.len() < i + p.len() <= a.len() + b.len() ==> #[trigger] (a
            + b).subrange(i, i + p.len()) != p
}

/// Replacing in `a + b` replaces in `a` and in `b` where no occurrence of
/// the pattern straddles the two.
pub proof fn lemma_replace_split(a: Seq<char>, b: Seq<char>, p: Seq<char>, r: Seq<char>)
    requires
        p.len() > 0,
        no_straddle(a, b, p),
    ensures
        replace_all(a + b, p, r) == replace_all(a, p, r) + replace_all(b, p, r),
    decreases a.len(),
{
    let s = a + b;
    if a.len() == 0 {
        assert(s =~= b);
        assert(replace_all(a, p, r) + replace_all(b, p, r) =~= replace_all(b, p, r));
    } else if s.len() < p.len() {
        assert(replace_all(a, p, r) == a);
        assert(replace_all(b, p, r) == b);
    } else if s.subrange(0, p.len() as int) == p {
        if p.len() > a.len() {
            assert(s.subrange(0, 0 + p.len() as int) == p);
            assert(false);
        }
        let a2 = a.subrange(p.len() as int, a.len() as int);
        assert(a.subrange(0, p.len() as int) =~= s.subrange(0, p.len() as int));
        assert(s.subrange(p.len() as int, s.len() as int) =~= a2 + b);
        assert forall|i: int|
            0 <= i < a2.len() && a2.len() < i + p.len() <= a2.len() + b.len() implies #[trigger] (a2
            + b).subrange(i, i + p.len()) != p by {
            assert((a2 + b).subrange(i, i + p.len()) =~= s.subrange(
                i + p.len(),
                i + p.len() + p.len(),
            ));
        }
        lemma_replace_split(a2, b, p, r);
        assert(replace_all(a, p, r) == r + replace_all(a2, p, r));
        assert(r + (replace_all(a2, p, r) + replace_all(b, p, r)) =~= (r + replace_all(a2, p, r))
            + replace_all(b, p, r));
    } else {
        let a2 = a.drop_first();
        assert(s.drop_first() =~= a2 + b);
        assert forall|i: int|
            0 <= i < a2.len() && a2.len() < i + p.len() <= a2.len() + b.len() implies #[trigger] (a2
            + b).subrange(i, i + p.len()) != p by {
            assert((a2 + b).subrange(i, i + p.len()) =~= s.subrange(i + 1, i + 1 + p.len()));
        }
        lemma_replace_split(a2, b, p, r);
        if a.len() >= p.len() {
            assert(a.subrange(0, p.len() as int) =~= s.subrange(0, p.len() as int));
            assert(replace_all(a, p, r) == seq![a[0]] + replace_all(a2, p, r));
        } else {
            assert(replace_all(a, p, r) == a);
            assert(replace_all(a2, p, r) == a2);
            assert(a =~= seq![a[0]] + a2);
        }
        assert(seq![s[0]] + (replace_all(a2, p, r) + replace_all(b, p, r)) =~= (seq![a[0]]
            + replace_all(a2, p, r)) + replace_all(b, p, r));
    }
}

/// A text that lacks one of the pattern's characters is left as it is.
pub proof fn lemma_replace_absent(s: Seq<char>, p: Seq<char>, r: Seq<char>, k: int)
    requires
        0 <= k < p.len(),
        forall|i: int| 0 <= i < s.len() ==> #[trigger] s[i] != p[k],
    ensures
        replace_all(s, p, r) == s,
    decreases s.len(),
{
    if s.len() >= p.len() {
        assert(s.subrange(0, p.len() as int)[k] == s[k]);
        let t = s.drop_first();
        assert forall|i: int| 0 <= i < t.len() implies #[trigger] t[i] != p[k] by {
            assert(t[i] == s[i + 1]);
        }
        lemma_replace_absent(t, p, r, k);
        assert(seq![s[0]] + t =~= s);
    }
}

/// An occurrence of the pattern at the front is replaced.
pub proof fn lemma_replace_head(p: Seq<char>, t: Seq<char>, r: Seq<char>)
    requires
        p.len() > 0,
    ensures
        replace_all(p + t, p, r) == r + replace_all(t, p, r),
{
    assert((p + t).subrange(0, p.len() as int) =~= p);
    assert((p + t).subrange(p.len() as int, (p + t).len() as int) =~= t);
}

/// Whether no character of `p` is an ASCII digit.
pub open spec fn digit_free(p: Seq<char>) -> bool {
    forall|i: int| 0 <= i < p.len() ==> !is_digit(#[trigger] p[i])
}

/// No occurrence of a digit-free pattern straddles into a text that starts
/// with a digit.
pub proof fn lemma_no_straddle_before_digit(a: Seq<char>, b: Seq<char>, p: Seq<char>)
    requires
        digit_free(p),
        b.len() == 0 || is_digit(b[0]),
    ensures
        no_straddle(a, b, p),
{
    assert forall|i: int|
        0 <= i < a.len() && a.len() < i + p.len() <= a.len() + b.len() implies #[trigger] (a
        + b).subrange(i, i + p.len()) != p by {
        let w = (a + b).subrange(i, i + p.len());
        assert(w[a.len() - i] == b[0]);
    }
}

/// No occurrence of a pattern that starts with a non-digit starts inside a
/// numeral.
pub proof fn lemma_no_straddle_after_digits(a: Seq<char>, b: Seq<char>, p: Seq<char>)
    requires
        p.len() > 0,
        !is_digit(p[0]),
        all_digits(a),
    ensures
        no_straddle(a, b, p),
{
    assert forall|i: int|
        0 <= i < a.len() && a.len() < i + p.len() <= a.len() + b.len() implies #[trigger] (a
        + b).subrange(i, i + p.len()) != p by {
        let w = (a + b).subrange(i, i + p.len());
        assert(w[0] == a[i]);
    }
}

/// Whether `p` occurs in `v` at position `i`.
pub fn matches_at(v: &Vec<char>, i: usize, p: &Vec<char>) -> (r: bool)
    requires
        i <= v.len(),
    ensures
        r == (i + p.len() <= v.len() && v@.subrange(i as int, i + p.len()) == p@),
{
    if p.len() > v.len() - i {
        return false;
    }
    let mut j: usize = 0;
    while j < p.len()
        invariant
            j <= p.len(),
            i + p.len() <= v.len(),
            v@.subrange(i as int, i + j) == p@.subrange(0, j as int),
        decreases p.len() - j,
    {
        if v[i + j] != p[j] {
            assert(v@.subrange(i as int, i + p.len())[j as int] != p@[j as int]);
            return false;
        }
        assert(v@.subrange(i as int, i + j + 1) =~= v@.subrange(i as int, i + j).push(v@[i + j]));
        assert(p@.subrange(0, j + 1) =~= p@.subrange(0, j as int).push(p@[j as int]));
        j = j + 1;
    }
    assert(p@.subrange(0, j as int) =~= p@);
    true
}

/// Replaces each non-overlapping occurrence of `p` in `s` by `r`, from the
/// left.
pub fn replace(s: &Vec<char>, p: &Vec<char>, r: &Vec<char>) -> (out: Vec<char>)
    requires
        p.len() > 0,
    ensures
        out@ == replace_all(s@, p@, r@),
{
    let mut out: Vec<char> = Vec::new();
    let mut i: usize = 0;
    assert(s@.subrange(0, s.len() as int) =~= s@);
    while i < s.len()
        invariant
            i <= s.len(),
            p.len() > 0,
            replace_all(s@, p@, r@) == out@ + replace_all(
                s@.subrange(i as int, s.len() as int),
                p@,
                r@,
            ),
        decreases s.len() - i,
    {
        let ghost rest = s@.subrange(i as int, s.len() as int);
        if matches_at(s, i, p) {
            assert(rest.subrange(0, p.len() as int) =~= s@.subrange(i as int, i + p.len()));
            assert(rest.subrange(p.len() as int, rest.len() as int) =~= s@.subrange(
                i + p.len(),
                s.len() as int,
            ));
            push_all(&mut out, r);
            i = i + p.len();
        } else {
            proof {
                if rest.len() >= p@.len() {
                    assert(rest.subrange(0, p@.len() as int) =~= s@.subrange(
                        i as int,
                        i + p@.len(),
                    ));
                }
                assert(rest.drop_first() =~= s@.subrange(i + 1, s.len() as int));
                if rest.len() < p@.len() {
                    assert(replace_all(rest, p@, r@) == rest);
                    assert(replace_all(rest.drop_first(), p@, r@) == rest.drop_first());
                    assert(out@ + rest =~= out@.push(s@[i as int]) + rest.drop_first());
                } else {
                    assert(out@ + replace_all(rest, p@, r@) =~= out@.push(s@[i as int])
                        + replace_all(rest.drop_first(), p@, r@));
                }
            }
            out.push(s[i]);
            i = i + 1;
        }
    }
    assert(s@.subrange(i as int, s.len() as int) =~= Seq::<char>::empty());
    out
}

} // verus!
