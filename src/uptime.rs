//! Uptime: the seconds since boot, read from the kernel's uptime file, and
//! their rendering as days, hours and minutes.

use vstd::prelude::*;

use crate::text::{
    all_digits, all_digits_in, chars_of, decimal, digit_free, drop_plus, digits_saturating, digits_value,
    find_char, find_in, is_digit, lemma_decimal, lemma_find_char, lemma_no_straddle_after_digits,
    lemma_no_straddle_before_digit, lemma_replace_absent, lemma_replace_head,
    lemma_replace_split, lemma_trim_end_suffix, is_ws, push_all, push_decimal, replace, replace_all,
    string_from_chars, strips, trim_end_by, trim_end_range, Strip,
};

verus! {

/// ` day, `
pub open spec fn day_one() -> Seq<char> {
    seq![' ', 'd', 'a', 'y', ',', ' ']
}

/// ` days, `
pub open spec fn day_many() -> Seq<char> {
    seq![' ', 'd', 'a', 'y', 's', ',', ' ']
}

/// ` hour, `
pub open spec fn hour_one() -> Seq<char> {
    seq![' ', 'h', 'o', 'u', 'r', ',', ' ']
}

/// ` hours, `
pub open spec fn hour_many() -> Seq<char> {
    seq![' ', 'h', 'o', 'u', 'r', 's', ',', ' ']
}

/// ` min, `
pub open spec fn min_one() -> Seq<char> {
    seq![' ', 'm', 'i', 'n', ',', ' ']
}

/// ` mins, `
pub open spec fn min_many() -> Seq<char> {
    seq![' ', 'm', 'i', 'n', 's', ',', ' ']
}

/// ` secs`
pub open spec fn secs_word() -> Seq<char> {
    seq![' ', 's', 'e', 'c', 's']
}

/// The text for `n` of a unit: nothing for zero, else the number and the
/// singular or plural word, followed by `, `.
pub open spec fn unit_part(n: nat, one: Seq<char>, many: Seq<char>) -> Seq<char> {
    if n == 0 {
        seq![]
    } else if n == 1 {
        decimal(1) + one
    } else {
        decimal(n) + many
    }
}

/// The long form before its trailing separator is trimmed: the non-zero
/// units, or the total seconds where days, hours and minutes are all zero.
pub open spec fn long_parts(d: Duration) -> Seq<char> {
    if d.days == 0 && d.hours == 0 && d.mins == 0 {
        decimal(d.secs as nat) + secs_word()
    } else {
        unit_part(d.days as nat, day_one(), day_many()) + unit_part(
            d.hours as nat,
            hour_one(),
            hour_many(),
        ) + unit_part(d.mins as nat, min_one(), min_many())
    }
}

/// The number of unit words that the short form abbreviates.
pub const UNIT_WORD_COUNT: usize = 7;

/// The `i`-th unit word that the short form abbreviates, in the order of
/// replacement: ` days,`, ` day,`, ` hours,`, ` hour,`, ` mins`, ` min`,
/// ` secs`.
pub open spec fn unit_word(i: int) -> Seq<char> {
    if i == 0 {
        seq![' ', 'd', 'a', 'y', 's', ',']
    } else if i == 1 {
        seq![' ', 'd', 'a', 'y', ',']
    } else if i == 2 {
        seq![' ', 'h', 'o', 'u', 'r', 's', ',']
    } else if i == 3 {
        seq![' ', 'h', 'o', 'u', 'r', ',']
    } else if i == 4 {
        seq![' ', 'm', 'i', 'n', 's']
    } else if i == 5 {
        seq![' ', 'm', 'i', 'n']
    } else {
        seq![' ', 's', 'e', 'c', 's']
    }
}

/// The abbreviation of the `i`-th unit word.
pub open spec fn unit_letter(i: int) -> Seq<char> {
    if i <= 1 {
        seq!['d']
    } else if i <= 3 {
        seq!['h']
    } else if i <= 5 {
        seq!['m']
    } else {
        seq!['s']
    }
}

/// `s` with the first `n` unit words replaced by their abbreviations, one
/// word after the other.
pub open spec fn abbreviate_first(s: Seq<char>, n: nat) -> Seq<char>
    decreases n,
{
    if n == 0 {
        s
    } else {
        replace_all(abbreviate_first(s, (n - 1) as nat), unit_word(n - 1), unit_letter(n - 1))
    }
}

/// The unit words of the long form replaced by their one-letter
/// abbreviations (see [`unit_word`]).
pub open spec fn abbreviate(s: Seq<char>) -> Seq<char> {
    abbreviate_first(s, UNIT_WORD_COUNT as nat)
}

/// The executable form of [`unit_word`] and [`unit_letter`].
fn unit_word_chars(i: usize) -> (r: (Vec<char>, Vec<char>))
    requires
        i < UNIT_WORD_COUNT,
    ensures
        r.0@ == unit_word(i as int),
        r.1@ == unit_letter(i as int),
        r.0@.len() > 0,
{
    let w = if i == 0 {
        vec![' ', 'd', 'a', 'y', 's', ',']
    } else if i == 1 {
        vec![' ', 'd', 'a', 'y', ',']
    } else if i == 2 {
        vec![' ', 'h', 'o', 'u', 'r', 's', ',']
    } else if i == 3 {
        vec![' ', 'h', 'o', 'u', 'r', ',']
    } else if i == 4 {
        vec![' ', 'm', 'i', 'n', 's']
    } else if i == 5 {
        vec![' ', 'm', 'i', 'n']
    } else {
        vec![' ', 's', 'e', 'c', 's']
    };
    let l = if i <= 1 {
        vec!['d']
    } else if i <= 3 {
        vec!['h']
    } else if i <= 5 {
        vec!['m']
    } else {
        vec!['s']
    };
    assert(w@ =~= unit_word(i as int));
    assert(l@ =~= unit_letter(i as int));
    (w, l)
}

/// The rendering of `d`: long form (`2 days, 7 hours, 33 mins`) or short
/// form (`2d 7h 33m`), with trailing commas and whitespace trimmed.
pub open spec fn duration_text(d: Duration, short: bool) -> Seq<char> {
    if short {
        trim_end_by(abbreviate(long_parts(d)), Strip::SpaceOrComma)
    } else {
        trim_end_by(long_parts(d), Strip::SpaceOrComma)
    }
}

/// A span of time split into whole days, hours and minutes; `secs` keeps the
/// whole span in seconds.
pub struct Duration {
    pub days: u32,
    pub hours: u32,
    pub mins: u32,
    pub secs: u32,
}

/// The split of `secs` seconds.
pub open spec fn duration_of(secs: u32) -> Duration {
    Duration {
        days: secs / 60 / 60 / 24,
        hours: secs / 60 / 60 % 24,
        mins: secs / 60 % 60,
        secs: secs,
    }
}

/// Appends the text for `n` of a unit (see [`unit_part`]).
fn push_unit(out: &mut Vec<char>, n: u32, one: &Vec<char>, many: &Vec<char>)
    ensures
        final(out)@ == old(out)@ + unit_part(n as nat, one@, many@),
{
    if n == 1 {
        push_decimal(out, 1);
        push_all(out, one);
    } else if n > 1 {
        push_decimal(out, n as u128);
        push_all(out, many);
    } else {
        assert(old(out)@ + unit_part(n as nat, one@, many@) =~= old(out)@);
    }
}

impl Duration {
    /// Splits `secs` seconds into days, hours under 24 and minutes under 60.
    pub fn from_secs(secs: u32) -> (r: Self)
        ensures
            r == duration_of(secs),
    {
        let r = Self { days: secs / 60 / 60 / 24, hours: secs / 60 / 60 % 24, mins: secs / 60 % 60, secs };
        assert(r.days == duration_of(secs).days);
        assert(r.hours == duration_of(secs).hours);
        assert(r.mins == duration_of(secs).mins);
        r
    }

    /// Renders the duration in long form, or in short form where `short`
    /// asks for it (see [`duration_text`]).
    pub fn to_string(&self, short: bool) -> (r: String)
        ensures
            r@ == duration_text(*self, short),
    {
        let mut result: Vec<char> = Vec::new();
        if self.days == 0 && self.hours == 0 && self.mins == 0 {
            push_decimal(&mut result, self.secs as u128);
            push_all(&mut result, &vec![' ', 's', 'e', 'c', 's']);
        } else {
            push_unit(
                &mut result,
                self.days,
                &vec![' ', 'd', 'a', 'y', ',', ' '],
                &vec![' ', 'd', 'a', 'y', 's', ',', ' '],
            );
            push_unit(
                &mut result,
                self.hours,
                &vec![' ', 'h', 'o', 'u', 'r', ',', ' '],
                &vec![' ', 'h', 'o', 'u', 'r', 's', ',', ' '],
            );
            push_unit(
                &mut result,
                self.mins,
                &vec![' ', 'm', 'i', 'n', ',', ' '],
                &vec![' ', 'm', 'i', 'n', 's', ',', ' '],
            );
        }
        assert(result@ =~= long_parts(*self));
        if short {
            let ghost s0 = result@;
            let mut i: usize = 0;
            while i < UNIT_WORD_COUNT
                invariant
                    i <= UNIT_WORD_COUNT,
                    result@ == abbreviate_first(s0, i as nat),
                decreases UNIT_WORD_COUNT - i,
            {
                let (w, l) = unit_word_chars(i);
                result = replace(&result, &w, &l);
                i = i + 1;
            }
        }
        let end = trim_end_range(&result, 0, result.len(), &Strip::SpaceOrComma);
        assert(result@.subrange(0, result@.len() as int) =~= result@);
        let mut out: Vec<char> = Vec::new();
        let mut i: usize = 0;
        while i < end
            invariant
                i <= end <= result.len(),
                out@ == result@.subrange(0, i as int),
            decreases end - i,
        {
            out.push(result[i]);
            i = i + 1;
        }
        assert(out@ == trim_end_by(result@.subrange(0, result@.len() as int), Strip::SpaceOrComma));
        string_from_chars(&out)
    }
}

/// `n` of a unit written with the word `w`: nothing where `n` is zero.
spec fn block(n: nat, w: Seq<char>) -> Seq<char> {
    if n == 0 {
        seq![]
    } else {
        decimal(n) + w
    }
}

proof fn lemma_unit_word(i: int)
    requires
        0 <= i < UNIT_WORD_COUNT,
    ensures
        unit_word(i).len() >= 4,
        unit_word(i)[0] == ' ',
        !is_digit(unit_word(i)[0]),
        digit_free(unit_word(i)),
{
}

/// Abbreviating one unit word in a numeral followed by `w` leaves the
/// numeral alone.
proof fn lemma_numeral_pass(n: nat, w: Seq<char>, i: int)
    requires
        0 <= i < UNIT_WORD_COUNT,
    ensures
        replace_all(decimal(n) + w, unit_word(i), unit_letter(i)) == decimal(n) + replace_all(
            w,
            unit_word(i),
            unit_letter(i),
        ),
{
    let d = decimal(n);
    lemma_unit_word(i);
    lemma_decimal(n);
    lemma_no_straddle_after_digits(d, w, unit_word(i));
    lemma_replace_split(d, w, unit_word(i), unit_letter(i));
    assert forall|j: int| 0 <= j < d.len() implies #[trigger] d[j] != unit_word(i)[0] by {
        assert(is_digit(d[j]));
    }
    lemma_replace_absent(d, unit_word(i), unit_letter(i), 0);
}

proof fn lemma_block_pass(n: nat, w: Seq<char>, i: int)
    requires
        0 <= i < UNIT_WORD_COUNT,
    ensures
        replace_all(block(n, w), unit_word(i), unit_letter(i)) == block(
            n,
            replace_all(w, unit_word(i), unit_letter(i)),
        ),
        block(n, w).len() == 0 || is_digit(block(n, w)[0]),
{
    lemma_unit_word(i);
    if n > 0 {
        lemma_numeral_pass(n, w, i);
        lemma_decimal(n);
        assert(is_digit(decimal(n)[0]));
        assert(block(n, w)[0] == decimal(n)[0]);
    }
}

/// Abbreviating one unit word acts on each of three blocks on its own.
proof fn lemma_blocks_pass(
    n1: nat,
    w1: Seq<char>,
    n2: nat,
    w2: Seq<char>,
    n3: nat,
    w3: Seq<char>,
    i: int,
)
    requires
        0 <= i < UNIT_WORD_COUNT,
    ensures
        replace_all(block(n1, w1) + block(n2, w2) + block(n3, w3), unit_word(i), unit_letter(i))
            == block(n1, replace_all(w1, unit_word(i), unit_letter(i))) + block(
            n2,
            replace_all(w2, unit_word(i), unit_letter(i)),
        ) + block(n3, replace_all(w3, unit_word(i), unit_letter(i))),
{
    let (p, r) = (unit_word(i), unit_letter(i));
    let (b1, b2, b3) = (block(n1, w1), block(n2, w2), block(n3, w3));
    lemma_unit_word(i);
    lemma_block_pass(n1, w1, i);
    lemma_block_pass(n2, w2, i);
    lemma_block_pass(n3, w3, i);
    lemma_no_straddle_before_digit(b2, b3, p);
    lemma_replace_split(b2, b3, p, r);
    let b23 = b2 + b3;
    assert(b23.len() == 0 || is_digit(b23[0])) by {
        if b2.len() > 0 {
            assert(b23[0] == b2[0]);
        } else {
            assert(b23 =~= b3);
        }
    }
    lemma_no_straddle_before_digit(b1, b23, p);
    lemma_replace_split(b1, b23, p, r);
    assert(b1 + b2 + b3 =~= b1 + b23);
    assert(replace_all(b1, p, r) + (replace_all(b2, p, r) + replace_all(b3, p, r)) =~= replace_all(
        b1,
        p,
        r,
    ) + replace_all(b2, p, r) + replace_all(b3, p, r));
}

proof fn lemma_blocks_abbreviate(
    n1: nat,
    w1: Seq<char>,
    n2: nat,
    w2: Seq<char>,
    n3: nat,
    w3: Seq<char>,
    k: nat,
)
    requires
        k <= UNIT_WORD_COUNT,
    ensures
        abbreviate_first(block(n1, w1) + block(n2, w2) + block(n3, w3), k) == block(
            n1,
            abbreviate_first(w1, k),
        ) + block(n2, abbreviate_first(w2, k)) + block(n3, abbreviate_first(w3, k)),
    decreases k,
{
    if k > 0 {
        lemma_blocks_abbreviate(n1, w1, n2, w2, n3, w3, (k - 1) as nat);
        lemma_blocks_pass(
            n1,
            abbreviate_first(w1, (k - 1) as nat),
            n2,
            abbreviate_first(w2, (k - 1) as nat),
            n3,
            abbreviate_first(w3, (k - 1) as nat),
            k - 1,
        );
    }
}

proof fn lemma_numeral_abbreviate(n: nat, w: Seq<char>, k: nat)
    requires
        k <= UNIT_WORD_COUNT,
    ensures
        abbreviate_first(decimal(n) + w, k) == decimal(n) + abbreviate_first(w, k),
    decreases k,
{
    if k > 0 {
        lemma_numeral_abbreviate(n, w, (k - 1) as nat);
        lemma_numeral_pass(n, abbreviate_first(w, (k - 1) as nat), k - 1);
    }
}

/// Once the text is shorter than every unit word, abbreviating changes
/// nothing more.
proof fn lemma_short_rest(s: Seq<char>, j: nat)
    requires
        j <= UNIT_WORD_COUNT,
        abbreviate_first(s, j).len() < 4,
    ensures
        abbreviate(s) == abbreviate_first(s, j),
    decreases UNIT_WORD_COUNT - j,
{
    if j < UNIT_WORD_COUNT {
        lemma_unit_word(j as int);
        assert(abbreviate_first(s, j + 1) == replace_all(
            abbreviate_first(s, j),
            unit_word(j as int),
            unit_letter(j as int),
        ));
        lemma_short_rest(s, j + 1);
    }
}

/// Abbreviating the `j`-th unit word changes nothing where the text lacks
/// its `k`-th character.
proof fn lemma_absent_pass(s: Seq<char>, j: nat, k: int)
    requires
        j < UNIT_WORD_COUNT,
        0 <= k < unit_word(j as int).len(),
        forall|i: int|
            0 <= i < abbreviate_first(s, j).len() ==> #[trigger] abbreviate_first(s, j)[i]
                != unit_word(j as int)[k],
    ensures
        abbreviate_first(s, j + 1) == abbreviate_first(s, j),
{
    lemma_replace_absent(abbreviate_first(s, j), unit_word(j as int), unit_letter(j as int), k);
}

/// Abbreviating the `j`-th unit word where the text starts with it.
proof fn lemma_head_pass(s: Seq<char>, j: nat, t: Seq<char>)
    requires
        j < UNIT_WORD_COUNT,
        abbreviate_first(s, j) == unit_word(j as int) + t,
        t.len() < unit_word(j as int).len(),
    ensures
        abbreviate_first(s, j + 1) == unit_letter(j as int) + t,
{
    lemma_replace_head(unit_word(j as int), t, unit_letter(j as int));
}

proof fn lemma_abbreviate_words()
    ensures
        abbreviate(day_many()) == seq!['d', ' '],
        abbreviate(day_one()) == seq!['d', ' '],
        abbreviate(hour_many()) == seq!['h', ' '],
        abbreviate(hour_one()) == seq!['h', ' '],
        abbreviate(min_many()) == seq!['m', ',', ' '],
        abbreviate(min_one()) == seq!['m', ',', ' '],
        abbreviate(unit_word(4)) == seq!['m'],
        abbreviate(unit_word(5)) == seq!['m'],
        abbreviate(secs_word()) == seq!['s'],
{
    let dm = day_many();
    assert(abbreviate_first(dm, 0) =~= unit_word(0) + seq![' ']);
    lemma_head_pass(dm, 0, seq![' ']);
    lemma_short_rest(dm, 1);
    assert(unit_letter(0) + seq![' '] =~= seq!['d', ' ']);

    let d1 = day_one();
    lemma_absent_pass(d1, 0, 4);
    assert(abbreviate_first(d1, 1) =~= unit_word(1) + seq![' ']);
    lemma_head_pass(d1, 1, seq![' ']);
    lemma_short_rest(d1, 2);
    assert(unit_letter(1) + seq![' '] =~= seq!['d', ' ']);

    let hm = hour_many();
    lemma_absent_pass(hm, 0, 1);
    lemma_absent_pass(hm, 1, 1);
    assert(abbreviate_first(hm, 2) =~= unit_word(2) + seq![' ']);
    lemma_head_pass(hm, 2, seq![' ']);
    lemma_short_rest(hm, 3);
    assert(unit_letter(2) + seq![' '] =~= seq!['h', ' ']);

    let h1 = hour_one();
    lemma_absent_pass(h1, 0, 1);
    lemma_absent_pass(h1, 1, 1);
    lemma_absent_pass(h1, 2, 5);
    assert(abbreviate_first(h1, 3) =~= unit_word(3) + seq![' ']);
    lemma_head_pass(h1, 3, seq![' ']);
    lemma_short_rest(h1, 4);
    assert(unit_letter(3) + seq![' '] =~= seq!['h', ' ']);

    let mm = min_many();
    lemma_absent_pass(mm, 0, 1);
    lemma_absent_pass(mm, 1, 1);
    lemma_absent_pass(mm, 2, 1);
    lemma_absent_pass(mm, 3, 1);
    assert(abbreviate_first(mm, 4) =~= unit_word(4) + seq![',', ' ']);
    lemma_head_pass(mm, 4, seq![',', ' ']);
    lemma_short_rest(mm, 5);
    assert(unit_letter(4) + seq![',', ' '] =~= seq!['m', ',', ' ']);

    let m1 = min_one();
    lemma_absent_pass(m1, 0, 1);
    lemma_absent_pass(m1, 1, 1);
    lemma_absent_pass(m1, 2, 1);
    lemma_absent_pass(m1, 3, 1);
    lemma_absent_pass(m1, 4, 4);
    assert(abbreviate_first(m1, 5) =~= unit_word(5) + seq![',', ' ']);
    lemma_head_pass(m1, 5, seq![',', ' ']);
    lemma_short_rest(m1, 6);
    assert(unit_letter(5) + seq![',', ' '] =~= seq!['m', ',', ' ']);

    let ms = unit_word(4);
    lemma_absent_pass(ms, 0, 1);
    lemma_absent_pass(ms, 1, 1);
    lemma_absent_pass(ms, 2, 1);
    lemma_absent_pass(ms, 3, 1);
    assert(abbreviate_first(ms, 4) =~= unit_word(4) + Seq::<char>::empty());
    lemma_head_pass(ms, 4, Seq::<char>::empty());
    lemma_short_rest(ms, 5);
    assert(unit_letter(4) + Seq::<char>::empty() =~= seq!['m']);

    let mo = unit_word(5);
    lemma_absent_pass(mo, 0, 1);
    lemma_absent_pass(mo, 1, 1);
    lemma_absent_pass(mo, 2, 1);
    lemma_absent_pass(mo, 3, 1);
    lemma_absent_pass(mo, 4, 4);
    assert(abbreviate_first(mo, 5) =~= unit_word(5) + Seq::<char>::empty());
    lemma_head_pass(mo, 5, Seq::<char>::empty());
    lemma_short_rest(mo, 6);
    assert(unit_letter(5) + Seq::<char>::empty() =~= seq!['m']);

    let sw = secs_word();
    lemma_absent_pass(sw, 0, 1);
    lemma_absent_pass(sw, 1, 1);
    lemma_absent_pass(sw, 2, 1);
    lemma_absent_pass(sw, 3, 1);
    lemma_absent_pass(sw, 4, 1);
    lemma_absent_pass(sw, 5, 1);
    assert(abbreviate_first(sw, 6) =~= unit_word(6) + Seq::<char>::empty());
    lemma_head_pass(sw, 6, Seq::<char>::empty());
    assert(unit_letter(6) + Seq::<char>::empty() =~= seq!['s']);
}

/// The text of a unit as a block (see [`block`]).
proof fn lemma_unit_part_block(n: nat, one: Seq<char>, many: Seq<char>)
    ensures
        unit_part(n, one, many) == block(
            n,
            if n == 1 {
                one
            } else {
                many
            },
        ),
{
}

proof fn lemma_short_form_seconds(d: Duration)
    requires
        d.days == 0 && d.hours == 0 && d.mins == 0,
    ensures
        abbreviate(duration_text(d, false)) == duration_text(d, true),
{
    let k = Strip::SpaceOrComma;
    let empty = Seq::<char>::empty();
    lemma_abbreviate_words();
    let n = d.secs as nat;
    let u = decimal(n) + secs_word();
    assert(long_parts(d) == u);
    assert(!strips(k, u.last()));
    assert(u + empty =~= u);
    lemma_trim_end_suffix(u, empty, k);
    lemma_numeral_abbreviate(n, secs_word(), UNIT_WORD_COUNT as nat);
    let v = decimal(n) + seq!['s'];
    assert(abbreviate(u) == v);
    assert(!strips(k, v.last()));
    assert(v + empty =~= v);
    lemma_trim_end_suffix(v, empty, k);
}

proof fn lemma_short_form_minutes(d: Duration)
    requires
        d.mins != 0,
    ensures
        abbreviate(duration_text(d, false)) == duration_text(d, true),
{
    let k = Strip::SpaceOrComma;
    lemma_abbreviate_words();
    let (n1, n2, n3) = (d.days as nat, d.hours as nat, d.mins as nat);
    let w1 = if n1 == 1 {
        day_one()
    } else {
        day_many()
    };
    let w2 = if n2 == 1 {
        hour_one()
    } else {
        hour_many()
    };
    let t3 = if n3 == 1 {
        unit_word(5)
    } else {
        unit_word(4)
    };
    let sep = seq![',', ' '];
    let w3 = t3 + sep;
    assert(w3 =~= (if n3 == 1 {
        min_one()
    } else {
        min_many()
    }));
    lemma_unit_part_block(n1, day_one(), day_many());
    lemma_unit_part_block(n2, hour_one(), hour_many());
    lemma_unit_part_block(n3, min_one(), min_many());
    let x = block(n1, w1) + block(n2, w2);
    let u = x + block(n3, w3);
    assert(long_parts(d) == u);
    // The long form: the separator after the minutes trimmed.
    let long = x + block(n3, t3);
    assert(u =~= long + sep);
    assert(long.last() == t3.last());
    assert(!strips(k, long.last()));
    assert forall|i: int| 0 <= i < sep.len() implies strips(k, #[trigger] sep[i]) by {
        assert(is_ws(' '));
    }
    lemma_trim_end_suffix(long, sep, k);
    assert(duration_text(d, false) == long);
    // Abbreviating the long form.
    lemma_blocks_abbreviate(n1, w1, n2, w2, n3, t3, UNIT_WORD_COUNT as nat);
    let y = block(n1, abbreviate(w1)) + block(n2, abbreviate(w2));
    assert(abbreviate(long) == y + block(n3, seq!['m']));
    // The short form.
    lemma_blocks_abbreviate(n1, w1, n2, w2, n3, w3, UNIT_WORD_COUNT as nat);
    assert(abbreviate(u) == y + block(n3, seq!['m', ',', ' ']));
    let z = y + block(n3, seq!['m']);
    assert(y + block(n3, seq!['m', ',', ' ']) =~= z + sep);
    assert(z.last() == 'm');
    assert(!strips(k, z.last()));
    lemma_trim_end_suffix(z, sep, k);
}

/// Replacing the unit words of the long form by their abbreviations gives
/// the short form, for every span whose minutes are not zero or that is
/// shorter than a minute.
pub proof fn lemma_short_form_abbreviates_long_form(secs: u32)
    requires
        secs / 60 % 60 != 0 || secs < 60,
    ensures
        abbreviate(duration_text(duration_of(secs), false)) == duration_text(
            duration_of(secs),
            true,
        ),
{
    let d = duration_of(secs);
    if secs < 60 {
        assert(secs / 60 == 0);
        lemma_short_form_seconds(d);
    } else {
        lemma_short_form_minutes(d);
    }
}

/// The whole seconds of a non-negative decimal number `t`, as a float parse
/// truncated to an integer reads it: an optional `+`, digits, then
/// optionally `.` and more digits, with at least one digit in all (`5`,
/// `5.`, `.5`, `+5.25`); the fraction is dropped, and the value is
/// `u32::MAX` where larger.
pub open spec fn whole_seconds(t: Seq<char>) -> Option<u32> {
    let u = drop_plus(t);
    let i = find_char(u, '.');
    let ip = u.subrange(0, i);
    let fp = if i < u.len() {
        u.subrange(i + 1, u.len() as int)
    } else {
        seq![]
    };
    if (ip.len() > 0 || fp.len() > 0) && all_digits(ip) && all_digits(fp) {
        Some(
            if digits_value(ip) > u32::MAX {
                u32::MAX
            } else {
                digits_value(ip) as u32
            },
        )
    } else {
        None
    }
}

/// The uptime that the contents `s` of the uptime file (`<elapsed> <idle>`)
/// give: the whole seconds of the text before its first space; `None` where
/// there is no space.
pub open spec fn uptime_of(s: Seq<char>) -> Option<u32> {
    if find_char(s, ' ') < s.len() {
        whole_seconds(s.subrange(0, find_char(s, ' ')))
    } else {
        None
    }
}

/// Reads the seconds since boot from the contents of the uptime file
/// (`<elapsed> <idle>`); `None` where there is no space or the first field
/// is no decimal number.
pub fn parse_uptime(contents: &str) -> (r: Option<u32>)
    ensures
        r == uptime_of(contents@),
{
    let v = chars_of(contents);
    let sp = find_in(&v, 0, v.len(), ' ');
    assert(v@.subrange(0, v.len() as int) =~= contents@);
    if sp == v.len() {
        return None;
    }
    let ghost t = v@.subrange(0, sp as int);
    let mut a: usize = 0;
    if sp > 0 && v[0] == '+' {
        a = 1;
    }
    let ghost u = v@.subrange(a as int, sp as int);
    assert(u =~= drop_plus(t));
    let dot = find_in(&v, a, sp, '.');
    proof {
        lemma_find_char(contents@, ' ');
        lemma_find_char(u, '.');
    }
    assert(u.subrange(0, find_char(u, '.')) =~= v@.subrange(a as int, dot as int));
    if !all_digits_in(&v, a, dot) {
        return None;
    }
    if dot < sp {
        assert(u.subrange(find_char(u, '.') + 1, u.len() as int) =~= v@.subrange(
            dot + 1,
            sp as int,
        ));
        if !all_digits_in(&v, dot + 1, sp) {
            return None;
        }
        if dot == a && dot + 1 == sp {
            return None;
        }
    } else {
        assert(all_digits(Seq::<char>::empty()));
        if dot == a {
            return None;
        }
    }
    Some(digits_saturating(&v, a, dot))
}

/// The uptime line: the seconds since boot and whether to show them in
/// short form.
pub struct Uptime {
    pub header: String,
    /// Seconds since boot.
    pub uptime: u32,
    /// When true, the uptime reads like `2d 10h 3m`.
    pub short_output: bool,
}

impl Uptime {
    /// An uptime line for `uptime` seconds, in long form.
    pub fn new(uptime: u32) -> (r: Self)
        ensures
            r.header@ == seq!['U', 'p', 't', 'i', 'm', 'e'],
            r.uptime == uptime,
            !r.short_output,
    {
        let header = string_from_chars(&vec!['U', 'p', 't', 'i', 'm', 'e']);
        Uptime { header, uptime, short_output: false }
    }

    /// The uptime line for the contents of the uptime file; `None` where the
    /// file could not be read (`contents` is `None`) or holds no uptime.
    pub fn from_contents(contents: Option<&str>) -> (r: Option<Self>)
        ensures
            contents is None ==> r is None,
            contents matches Some(c) ==> match uptime_of(c@) {
                Some(u) => r matches Some(x) && x.uptime == u && !x.short_output && x.header@
                    == seq!['U', 'p', 't', 'i', 'm', 'e'],
                None => r is None,
            },
    {
        match contents {
            Some(c) => match parse_uptime(c) {
                Some(u) => Some(Uptime::new(u)),
                None => None,
            },
            None => None,
        }
    }

    /// The rendered uptime.
    pub fn value(&self) -> (r: String)
        ensures
            r@ == duration_text(duration_of(self.uptime), self.short_output),
    {
        Duration::from_secs(self.uptime).to_string(self.short_output)
    }
}

} // verus!
