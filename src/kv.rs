//! Line-oriented `KEY<delimiter>VALUE` parsing into a map with unique keys.

use vstd::prelude::*;

use crate::memory::{mem_value, parse_mem_value};
use crate::text::{
    chars_of, copy_range, find_char, find_in, lemma_find_char, line_at, lines, string_from_chars,
    trim, trim_range, Strip,
};

verus! {

broadcast use vstd::string::group_string_axioms;

/// The map that the pairs `e` stand for, a later pair over an earlier one.
pub open spec fn map_of<V: View>(e: Seq<(String, V)>) -> Map<Seq<char>, V::V>
    decreases e.len(),
{
    if e.len() == 0 {
        Map::empty()
    } else {
        map_of(e.drop_last()).insert(e.last().0@, e.last().1@)
    }
}

/// No two of the pairs `e` have the same key.
pub open spec fn keys_distinct<V>(e: Seq<(String, V)>) -> bool {
    forall|i: int, j: int| 0 <= i < j < e.len() ==> e[i].0@ != e[j].0@
}

proof fn lemma_map_of_lookup<V: View>(e: Seq<(String, V)>, k: Seq<char>)
    requires
        keys_distinct(e),
    ensures
        map_of(e).dom().finite(),
        map_of(e).dom().len() == e.len(),
        map_of(e).contains_key(k) <==> exists|i: int| 0 <= i < e.len() && e[i].0@ == k,
        forall|i: int| 0 <= i < e.len() && #[trigger] e[i].0@ == k ==> map_of(e)[k] == e[i].1@,
    decreases e.len(),
{
    if e.len() > 0 {
        let d = e.drop_last();
        assert(keys_distinct(d));
        lemma_map_of_lookup(d, k);
        lemma_map_of_lookup(d, e.last().0@);
        assert(!map_of(d).contains_key(e.last().0@)) by {
            if map_of(d).contains_key(e.last().0@) {
                let i = choose|i: int| 0 <= i < d.len() && d[i].0@ == e.last().0@;
                assert(e[i].0@ == e[e.len() - 1].0@);
            }
        }
        if exists|i: int| 0 <= i < e.len() && e[i].0@ == k {
            let i = choose|i: int| 0 <= i < e.len() && e[i].0@ == k;
            if i < e.len() - 1 {
                assert(e[i] == d[i]);
                assert(d[i].0@ == k);
            }
        }
        if map_of(e).contains_key(k) && k != e.last().0@ {
            let i = choose|i: int| 0 <= i < d.len() && d[i].0@ == k;
            assert(e[i] == d[i]);
        }
        assert forall|i: int| 0 <= i < e.len() && #[trigger] e[i].0@ == k implies map_of(e)[k]
            == e[i].1@ by {
            if i < e.len() - 1 {
                assert(e[i] == d[i]);
                assert(d[i].0@ == k);
            }
        }
    }
}

proof fn lemma_map_of_update<V: View>(e: Seq<(String, V)>, i: int, x: (String, V))
    requires
        keys_distinct(e),
        0 <= i < e.len(),
        x.0@ == e[i].0@,
    ensures
        keys_distinct(e.update(i, x)),
        map_of(e.update(i, x)) == map_of(e).insert(x.0@, x.1@),
    decreases e.len(),
{
    let u = e.update(i, x);
    assert(keys_distinct(u)) by {
        assert forall|a: int, b: int| 0 <= a < b < u.len() implies u[a].0@ != u[b].0@ by {
            assert(e[a].0@ != e[b].0@);
        }
    }
    if i == e.len() - 1 {
        assert(u.drop_last() =~= e.drop_last());
        assert(map_of(u) =~= map_of(e).insert(x.0@, x.1@));
    } else {
        let d = e.drop_last();
        assert(keys_distinct(d));
        lemma_map_of_update(d, i, x);
        assert(u.drop_last() =~= d.update(i, x));
        assert(e.last().0@ != x.0@) by {
            assert(e[i].0@ != e[e.len() - 1].0@);
        }
        assert(map_of(u) =~= map_of(e).insert(x.0@, x.1@));
    }
}

/// A map from text keys to values, holding each key once.
pub struct KeyMap<V> {
    entries: Vec<(String, V)>,
}

impl<V: View> View for KeyMap<V> {
    type V = Map<Seq<char>, V::V>;

    closed spec fn view(&self) -> Map<Seq<char>, V::V> {
        map_of(self.entries@)
    }
}

impl<V> KeyMap<V> {
    #[verifier::type_invariant]
    spec fn inv(self) -> bool {
        keys_distinct(self.entries@)
    }
}

impl<V: View> KeyMap<V> {
    /// An empty map.
    pub fn new() -> (r: Self)
        ensures
            r@ == Map::<Seq<char>, V::V>::empty(),
    {
        KeyMap { entries: Vec::new() }
    }

    /// The number of keys.
    pub fn len(&self) -> (r: usize)
        ensures
            self@.dom().finite(),
            r == self@.dom().len(),
    {
        proof {
            use_type_invariant(self);
            lemma_map_of_lookup(self.entries@, Seq::empty());
        }
        self.entries.len()
    }

    /// The value held for `key`, if any.
    pub fn get(&self, key: &str) -> (r: Option<&V>)
        ensures
            match r {
                Some(v) => self@.contains_key(key@) && self@[key@] == v@,
                None => !self@.contains_key(key@),
            },
    {
        let k = key.to_owned();
        let mut i: usize = 0;
        while i < self.entries.len()
            invariant
                i <= self.entries.len(),
                k@ == key@,
                forall|j: int| 0 <= j < i ==> self.entries@[j].0@ != key@,
            decreases self.entries.len() - i,
        {
            if self.entries[i].0 == k {
                proof {
                    use_type_invariant(self);
                    lemma_map_of_lookup(self.entries@, key@);
                    assert(self.entries@[i as int].0@ == key@);
                }
                return Some(&self.entries[i].1);
            }
            i = i + 1;
        }
        proof {
            use_type_invariant(self);
            lemma_map_of_lookup(self.entries@, key@);
        }
        None
    }

    /// Sets the value of `key` to `value`, replacing an earlier one.
    pub fn insert(&mut self, key: String, value: V)
        ensures
            final(self)@ == old(self)@.insert(key@, value@),
    {
        proof {
            use_type_invariant(&*self);
        }
        let mut entries: Vec<(String, V)> = Vec::new();
        std::mem::swap(&mut entries, &mut self.entries);
        let ghost e = entries@;
        let mut i: usize = 0;
        while i < entries.len()
            invariant
                i <= entries.len(),
                entries@ == e,
                keys_distinct(e),
                map_of(e) == old(self)@,
                forall|j: int| 0 <= j < i ==> e[j].0@ != key@,
            decreases entries.len() - i,
        {
            if entries[i].0 == key {
                proof {
                    lemma_map_of_update(e, i as int, (key, value));
                }
                entries.set(i, (key, value));
                self.entries = entries;
                return;
            }
            i = i + 1;
        }
        assert(entries@.push((key, value)).drop_last() =~= e);
        entries.push((key, value));
        assert(keys_distinct(entries@)) by {
            assert forall|a: int, b: int| 0 <= a < b < entries@.len() implies entries@[a].0@
                != entries@[b].0@ by {
                if b < e.len() {
                    assert(e[a].0@ != e[b].0@);
                }
            }
        }
        self.entries = entries;
    }
}

impl KeyMap<String> {
    /// The map with each value read as a memory-info size (see
    /// [`mem_value`]), in KiB, or in whole MiB where `mib` asks for it.
    pub fn map_mem_values(&self, mib: bool) -> (r: KeyMap<u32>)
        ensures
            r@ == self@.map_values(
                |v: Seq<char>|
                    if mib {
                        (mem_value(v) / 1024) as u32
                    } else {
                        mem_value(v)
                    },
            ),
    {
        proof {
            use_type_invariant(self);
        }
        let ghost f = |v: Seq<char>|
            if mib {
                (mem_value(v) / 1024) as u32
            } else {
                mem_value(v)
            };
        let mut out: Vec<(String, u32)> = Vec::new();
        let mut i: usize = 0;
        while i < self.entries.len()
            invariant
                i <= self.entries.len(),
                keys_distinct(self.entries@),
                forall|v: Seq<char>|
                    #[trigger] f(v) == (if mib {
                        (mem_value(v) / 1024) as u32
                    } else {
                        mem_value(v)
                    }),
                out@.len() == i,
                forall|j: int| 0 <= j < i ==> #[trigger] out@[j].0@ == self.entries@[j].0@,
                map_of(out@) == map_of(self.entries@.subrange(0, i as int)).map_values(f),
            decreases self.entries.len() - i,
        {
            let k = self.entries[i].0.clone();
            let raw = parse_mem_value(self.entries[i].1.as_str());
            assert(raw == mem_value(self.entries@[i as int].1@));
            let n = if mib {
                raw / 1024
            } else {
                raw
            };
            let ghost prev = out@;
            out.push((k, n));
            assert(out@.drop_last() =~= prev);
            assert(self.entries@.subrange(0, i + 1).drop_last() =~= self.entries@.subrange(
                0,
                i as int,
            ));
            assert(self.entries@.subrange(0, i + 1).last() == self.entries@[i as int]);
            assert(n == f(self.entries@[i as int].1@));
            assert(map_of(out@) =~= map_of(self.entries@.subrange(0, i + 1)).map_values(f));
            i = i + 1;
        }
        assert(self.entries@.subrange(0, i as int) =~= self.entries@);
        let r = KeyMap { entries: out };
        assert(r@ =~= self@.map_values(f));
        r
    }
}

/// Whether `line` holds the delimiter `d`.
pub open spec fn has_delim(line: Seq<char>, d: char) -> bool {
    find_char(line, d) < line.len()
}

/// The key of `line`: the text before its first `d`, trimmed.
pub open spec fn key_of(line: Seq<char>, d: char) -> Seq<char> {
    trim(line.subrange(0, find_char(line, d)))
}

/// `s` without one leading and one trailing `"`.
pub open spec fn unquote(s: Seq<char>) -> Seq<char> {
    let a = if s.len() > 0 && s[0] == '"' {
        s.drop_first()
    } else {
        s
    };
    if a.len() > 0 && a.last() == '"' {
        a.drop_last()
    } else {
        a
    }
}

/// The value of `line`: the text after its first `d`, trimmed, and
/// unquoted where `quoted` asks for it.
pub open spec fn value_of(line: Seq<char>, d: char, quoted: bool) -> Seq<char> {
    let v = trim(line.subrange(find_char(line, d) + 1, line.len() as int));
    if quoted {
        unquote(v)
    } else {
        v
    }
}

/// The map that the lines `ls` describe: one entry for each line that holds
/// `d`, a later line over an earlier one with the same key.
pub open spec fn entries_map(ls: Seq<Seq<char>>, d: char, quoted: bool) -> Map<
    Seq<char>,
    Seq<char>,
>
    decreases ls.len(),
{
    if ls.len() == 0 {
        Map::empty()
    } else {
        let m = entries_map(ls.drop_last(), d, quoted);
        let l = ls.last();
        if has_delim(l, d) {
            m.insert(key_of(l, d), value_of(l, d, quoted))
        } else {
            m
        }
    }
}

/// Whether every line of `ls` holds `d`.
pub open spec fn all_delimited(ls: Seq<Seq<char>>, d: char) -> bool {
    forall|i: int| 0 <= i < ls.len() ==> has_delim(#[trigger] ls[i], d)
}

/// The keys of `entries_map(ls, d, quoted)` are those of the lines of `ls`
/// that hold `d`.
pub proof fn lemma_entries_map_keys(ls: Seq<Seq<char>>, d: char, quoted: bool, k: Seq<char>)
    ensures
        entries_map(ls, d, quoted).dom().finite(),
        entries_map(ls, d, quoted).contains_key(k) <==> exists|i: int|
            0 <= i < ls.len() && has_delim(ls[i], d) && #[trigger] key_of(ls[i], d) == k,
    decreases ls.len(),
{
    if ls.len() > 0 {
        let p = ls.drop_last();
        lemma_entries_map_keys(p, d, quoted, k);
        if exists|i: int| 0 <= i < ls.len() && has_delim(ls[i], d) && #[trigger] key_of(ls[i], d) == k {
            let i = choose|i: int|
                0 <= i < ls.len() && has_delim(ls[i], d) && #[trigger] key_of(ls[i], d) == k;
            if i < ls.len() - 1 {
                assert(p[i] == ls[i]);
                assert(key_of(p[i], d) == k);
            }
        }
        if entries_map(p, d, quoted).contains_key(k) {
            let i = choose|i: int|
                0 <= i < p.len() && has_delim(p[i], d) && #[trigger] key_of(p[i], d) == k;
            assert(ls[i] == p[i]);
            assert(key_of(ls[i], d) == k);
        }
    }
}

/// A key that only one line names maps to that line's value, whatever the
/// other lines hold.
pub proof fn lemma_entries_map_single_key(ls: Seq<Seq<char>>, d: char, quoted: bool, i: int)
    requires
        0 <= i < ls.len(),
        has_delim(ls[i], d),
        forall|j: int|
            0 <= j < ls.len() && j != i && has_delim(#[trigger] ls[j], d) ==> key_of(ls[j], d)
                != key_of(ls[i], d),
    ensures
        entries_map(ls, d, quoted).contains_key(key_of(ls[i], d)),
        entries_map(ls, d, quoted)[key_of(ls[i], d)] == value_of(ls[i], d, quoted),
    decreases ls.len(),
{
    if i < ls.len() - 1 {
        let p = ls.drop_last();
        assert(p[i] == ls[i]);
        assert forall|j: int|
            0 <= j < p.len() && j != i && has_delim(#[trigger] p[j], d) implies key_of(p[j], d)
            != key_of(p[i], d) by {
            assert(p[j] == ls[j]);
        }
        lemma_entries_map_single_key(p, d, quoted, i);
        let l = ls[ls.len() - 1];
        if has_delim(l, d) {
            assert(key_of(l, d) != key_of(ls[i], d));
        }
    }
}

/// Where every line holds `d` and no two lines share a key, the map has one
/// entry per line, and each line's key maps to that line's value.
pub proof fn lemma_entries_map_one_per_line(ls: Seq<Seq<char>>, d: char, quoted: bool)
    requires
        all_delimited(ls, d),
        forall|i: int, j: int|
            0 <= i < j < ls.len() ==> key_of(#[trigger] ls[i], d) != key_of(#[trigger] ls[j], d),
    ensures
        entries_map(ls, d, quoted).dom().finite(),
        entries_map(ls, d, quoted).dom().len() == ls.len(),
        forall|i: int|
            0 <= i < ls.len() ==> entries_map(ls, d, quoted)[key_of(#[trigger] ls[i], d)]
                == value_of(ls[i], d, quoted),
    decreases ls.len(),
{
    let m = entries_map(ls, d, quoted);
    if ls.len() == 0 {
        lemma_entries_map_keys(ls, d, quoted, Seq::empty());
    } else {
        let p = ls.drop_last();
        let l = ls.last();
        assert(all_delimited(p, d)) by {
            assert forall|i: int| 0 <= i < p.len() implies has_delim(#[trigger] p[i], d) by {
                assert(p[i] == ls[i]);
            }
        }
        assert forall|i: int, j: int| 0 <= i < j < p.len() implies key_of(#[trigger] p[i], d)
            != key_of(#[trigger] p[j], d) by {
            assert(p[i] == ls[i] && p[j] == ls[j]);
        }
        lemma_entries_map_one_per_line(p, d, quoted);
        lemma_entries_map_keys(p, d, quoted, key_of(l, d));
        assert(has_delim(ls[ls.len() - 1], d));
        assert(!entries_map(p, d, quoted).contains_key(key_of(l, d))) by {
            if entries_map(p, d, quoted).contains_key(key_of(l, d)) {
                let i = choose|i: int|
                    0 <= i < p.len() && has_delim(p[i], d) && #[trigger] key_of(p[i], d) == key_of(
                        l,
                        d,
                    );
                assert(p[i] == ls[i]);
                assert(key_of(ls[i], d) != key_of(ls[ls.len() - 1], d));
            }
        }
        assert(m == entries_map(p, d, quoted).insert(key_of(l, d), value_of(l, d, quoted)));
        assert forall|i: int| 0 <= i < ls.len() implies m[key_of(#[trigger] ls[i], d)] == value_of(
            ls[i],
            d,
            quoted,
        ) by {
            if i < ls.len() - 1 {
                assert(p[i] == ls[i]);
                assert(key_of(ls[i], d) != key_of(ls[ls.len() - 1], d));
                assert(entries_map(p, d, quoted)[key_of(p[i], d)] == value_of(p[i], d, quoted));
            }
        }
    }
}

/// Splits the line `v[lo..hi]` at its first `d`. Returns the bounds of its
/// key and of its value, or `None` when the line holds no `d`.
pub fn split_entry(v: &Vec<char>, lo: usize, hi: usize, d: char, quoted: bool) -> (r: Option<
    (usize, usize, usize, usize),
>)
    requires
        lo <= hi <= v.len(),
    ensures
        r is None <==> !has_delim(v@.subrange(lo as int, hi as int), d),
        r matches Some(b) ==> {
            &&& b.0 <= b.1 <= v.len()
            &&& b.2 <= b.3 <= v.len()
            &&& v@.subrange(b.0 as int, b.1 as int) == key_of(v@.subrange(lo as int, hi as int), d)
            &&& v@.subrange(b.2 as int, b.3 as int) == value_of(
                v@.subrange(lo as int, hi as int),
                d,
                quoted,
            )
        },
{
    let ghost line = v@.subrange(lo as int, hi as int);
    let p = find_in(v, lo, hi, d);
    proof {
        lemma_find_char(line, d);
    }
    if p == hi {
        return None;
    }
    let (ka, kb) = trim_range(v, lo, p, &Strip::Space);
    assert(line.subrange(0, find_char(line, d)) =~= v@.subrange(lo as int, p as int));
    let (mut va, mut vb) = trim_range(v, p + 1, hi, &Strip::Space);
    assert(line.subrange(find_char(line, d) + 1, line.len() as int) =~= v@.subrange(
        p + 1,
        hi as int,
    ));
    if quoted {
        let ghost t = v@.subrange(va as int, vb as int);
        if va < vb && v[va] == '"' {
            va = va + 1;
        }
        let ghost a = v@.subrange(va as int, vb as int);
        assert(a =~= (if t.len() > 0 && t[0] == '"' {
            t.drop_first()
        } else {
            t
        }));
        if va < vb && v[vb - 1] == '"' {
            vb = vb - 1;
            assert(v@.subrange(va as int, vb as int) =~= a.drop_last());
        }
    }
    Some((ka, kb, va, vb))
}

/// Parses `text` line by line into a map: each line is split at its first
/// `d`; key and value are trimmed, and the value unquoted where `quoted`
/// asks for it. A line without `d` is skipped, or, where `strict` asks for
/// it, makes the whole parse fail.
pub fn parse_key_values(text: &str, d: char, quoted: bool, strict: bool) -> (r: Option<
    KeyMap<String>,
>)
    ensures
        r is None <==> strict && !all_delimited(lines(text@), d),
        r matches Some(m) ==> m@ == entries_map(lines(text@), d, quoted),
{
    let v = chars_of(text);
    let n = v.len();
    let mut map: KeyMap<String> = KeyMap::new();
    let mut pos: usize = 0;
    let ghost mut done: Seq<Seq<char>> = seq![];
    assert(v@.subrange(0, n as int) =~= text@);
    while pos < n
        invariant
            pos <= n == v.len(),
            v@ == text@,
            lines(text@) == done + lines(v@.subrange(pos as int, n as int)),
            map@ == entries_map(done, d, quoted),
            strict ==> all_delimited(done, d),
        decreases n - pos,
    {
        let (end, next) = line_at(&v, pos);
        let ghost line = v@.subrange(pos as int, end as int);
        let ghost rest = v@.subrange(pos as int, n as int);
        assert(lines(rest) == seq![line] + lines(v@.subrange(next as int, n as int)));
        assert(done + lines(rest) =~= done.push(line) + lines(v@.subrange(next as int, n as int)));
        assert(done.push(line).drop_last() =~= done);
        match split_entry(&v, pos, end, d, quoted) {
            Some((ka, kb, va, vb)) => {
                let key = string_from_chars(&copy_range(&v, ka, kb));
                let value = string_from_chars(&copy_range(&v, va, vb));
                map.insert(key, value);
            },
            None => {
                if strict {
                    assert(!has_delim(done.push(line)[done.len() as int], d));
                    assert(!all_delimited(lines(text@), d)) by {
                        assert(lines(text@)[done.len() as int] == line);
                    }
                    return None;
                }
            },
        }
        proof {
            done = done.push(line);
        }
        pos = next;
    }
    assert(v@.subrange(pos as int, n as int) =~= Seq::<char>::empty());
    assert(done =~= lines(text@));
    Some(map)
}

/// Parses `string` into a map, each line split at its first `delimiter`;
/// fails when a line holds no `delimiter`.
pub fn parse_string_to_hashmap(string: &str, delimiter: char) -> (r: Option<KeyMap<String>>)
    ensures
        r is None <==> !all_delimited(lines(string@), delimiter),
        r matches Some(m) ==> m@ == entries_map(lines(string@), delimiter, false),
{
    parse_key_values(string, delimiter, false, true)
}

} // verus!
