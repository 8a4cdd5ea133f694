//! Parsers for the textual fragments of a detail page: relative times,
//! human-readable sizes and file listings.

use crate::record::{File, FileView};
use crate::text::{
    all_digits, chars_of, decimal, digit_of, digit_value, digits_value, find_first, find_last,
    first_index, is_digit, is_space, last_index, lemma_decimal_reads_back, lemma_first_index,
    lemma_last_index, lemma_split_at, lemma_split_whole, parse_bounded, parse_nat, read_digits,
    same_chars, skip_plus, split, split_on, string_of, trim, trimmed, unsigned_body, Reading,
};
use vstd::arithmetic::div_mod::{lemma_div_denominator, lemma_hoist_over_denominator};
use vstd::prelude::*;
use vstd::slice::slice_subrange;

verus! {

/// `u` without one trailing `s`.
pub open spec fn singular(u: Seq<char>) -> Seq<char> {
    if u.len() > 0 && u.last() == 's' {
        u.drop_last()
    } else {
        u
    }
}

fn strip_plural(u: &[char]) -> (w: &[char])
    ensures
        w@ == singular(u@),
{
    if u.len() > 0 && u[u.len() - 1] == 's' {
        let w = slice_subrange(u, 0, u.len() - 1);
        assert(w@ =~= u@.drop_last());
        w
    } else {
        u
    }
}

/// The length in seconds of a unit of time, named in the singular or with
/// one plural `s`. Months, years and decades are 30, 365 and 3650 days.
pub open spec fn unit_seconds(u: Seq<char>) -> Option<nat> {
    let w = singular(u);
    if w == "second"@ {
        Some(1)
    } else if w == "minute"@ {
        Some(60)
    } else if w == "hour"@ {
        Some(3600)
    } else if w == "day"@ {
        Some(86400)
    } else if w == "week"@ {
        Some(604800)
    } else if w == "month"@ {
        Some(2592000)
    } else if w == "year"@ {
        Some(31536000)
    } else if w == "decade"@ {
        Some(315360000)
    } else {
        None
    }
}

fn seconds_per(unit: &[char]) -> (r: Option<u64>)
    ensures
        match r {
            Some(f) => unit_seconds(unit@) == Some(f as nat) && 1 <= f <= 315360000,
            None => unit_seconds(unit@) is None,
        },
{
    let w = strip_plural(unit);
    if same_chars(w, "second") {
        Some(1)
    } else if same_chars(w, "minute") {
        Some(60)
    } else if same_chars(w, "hour") {
        Some(3600)
    } else if same_chars(w, "day") {
        Some(86400)
    } else if same_chars(w, "week") {
        Some(604800)
    } else if same_chars(w, "month") {
        Some(2592000)
    } else if same_chars(w, "year") {
        Some(31536000)
    } else if same_chars(w, "decade") {
        Some(315360000)
    } else {
        None
    }
}

/// The instant that `text` names relative to `now`.
///
/// The text, trimmed, must be three words parted by single spaces: a count,
/// a unit of time, and `ago`. The instant is `now` less count times the
/// unit's seconds; a text that reaches back beyond instant zero names none.
pub open spec fn time_offset(now: u64, text: Seq<char>) -> Option<u64> {
    let parts = split_on(trimmed(text), ' ');
    if parts.len() != 3 || parts[2] != "ago"@ {
        None
    } else {
        match (parse_nat(parts[0]), unit_seconds(parts[1])) {
            (Some(n), Some(f)) => if n * f <= now {
                Some((now - n * f) as u64)
            } else {
                None
            },
            _ => None,
        }
    }
}

/// Turns a text such as `1 year ago` into an instant before `now`.
pub fn parse_time_offset(now: u64, value: &str) -> (r: Option<u64>)
    ensures
        r == time_offset(now, value@),
{
    let chars = chars_of(value);
    let body = trim(chars.as_slice());
    let parts = split(body, ' ');
    if parts.len() != 3 {
        return None;
    }
    let ghost model = split_on(trimmed(value@), ' ');
    assert(parts[0]@ == model[0] && parts[1]@ == model[1] && parts[2]@ == model[2]);
    if !same_chars(parts[2], "ago") {
        return None;
    }
    let factor = match seconds_per(parts[1]) {
        Some(f) => f,
        None => {
            return None;
        },
    };
    match parse_bounded(parts[0], u64::MAX) {
        Some(n) => {
            assert(n * factor <= 0xffff_ffff_ffff_ffff * 315360000) by (nonlinear_arith)
                requires
                    n <= 0xffff_ffff_ffff_ffff,
                    factor <= 315360000,
            ;
            let span: u128 = n as u128 * factor as u128;
            if span <= now as u128 {
                Some(now - span as u64)
            } else {
                None
            }
        },
        None => {
            proof {
                if let Some(n) = parse_nat(model[0]) {
                    assert(n * factor >= n) by (nonlinear_arith)
                        requires
                            factor >= 1,
                            n >= 0,
                    ;
                }
            }
            None
        },
    }
}

/// A unit of time is a word without white space.
pub proof fn lemma_time_unit_is_a_word(u: Seq<char>)
    requires
        unit_seconds(u) is Some,
    ensures
        u.len() > 0,
        forall|i: int| 0 <= i < u.len() ==> !is_space(#[trigger] u[i]),
{
    reveal_strlit("second");
    reveal_strlit("minute");
    reveal_strlit("hour");
    reveal_strlit("day");
    reveal_strlit("week");
    reveal_strlit("month");
    reveal_strlit("year");
    reveal_strlit("decade");
    let w = singular(u);
    assert(w.len() > 0);
    assert forall|i: int| 0 <= i < w.len() implies !is_space(#[trigger] w[i]) by {
        if w == "second"@ {
            assert(w[i] == "second"@[i]);
        } else if w == "minute"@ {
            assert(w[i] == "minute"@[i]);
        } else if w == "hour"@ {
            assert(w[i] == "hour"@[i]);
        } else if w == "day"@ {
            assert(w[i] == "day"@[i]);
        } else if w == "week"@ {
            assert(w[i] == "week"@[i]);
        } else if w == "month"@ {
            assert(w[i] == "month"@[i]);
        } else if w == "year"@ {
            assert(w[i] == "year"@[i]);
        } else {
            assert(w[i] == "decade"@[i]);
        }
    }
    assert forall|i: int| 0 <= i < u.len() implies !is_space(#[trigger] u[i]) by {
        if i < w.len() {
            assert(u[i] == w[i]);
        }
    }
}

/// A count, a unit of time and `ago`, parted by single spaces, name the
/// instant that lies the count times the unit before now, as long as that
/// is no instant before zero.
pub proof fn lemma_counted_time(now: u64, n: nat, u: Seq<char>, f: nat)
    requires
        unit_seconds(u) == Some(f),
    ensures
        time_offset(now, decimal(n) + " "@ + u + " ago"@) == if n * f <= now {
            Some((now - n * f) as u64)
        } else {
            None
        },
{
    reveal_strlit(" ");
    reveal_strlit(" ago");
    reveal_strlit("ago");
    lemma_time_unit_is_a_word(u);
    lemma_decimal_reads_back(n);
    let count = decimal(n);
    let s = count + " "@ + u + " ago"@;
    let k = count.len() as int;
    assert(s.len() == k + 1 + u.len() + 4);
    assert(s[0] == count[0] && is_digit(count[0]));
    assert(s.last() == " ago"@[3]);
    assert(trimmed(s) == s);
    assert forall|i: int| 0 <= i < k implies s[i] != ' ' by {
        assert(s[i] == count[i] && is_digit(count[i]));
    }
    assert(s[k] == " "@[0]);
    lemma_split_at(s, ' ', k);
    let rest = s.skip(k + 1);
    assert(rest =~= u + " ago"@);
    assert forall|i: int| 0 <= i < u.len() implies rest[i] != ' ' by {
        assert(rest[i] == u[i]);
    }
    assert(rest[u.len() as int] == " ago"@[0]);
    lemma_split_at(rest, ' ', u.len() as int);
    let last = rest.skip(u.len() as int + 1);
    assert(last =~= "ago"@);
    lemma_split_whole(last, ' ');
    let parts = split_on(s, ' ');
    assert(parts =~= seq![s.take(k), rest.take(u.len() as int), last]);
    assert(parts[0] =~= count);
    assert(parts[1] =~= u);
    assert(parts.len() == 3 && parts[2] == "ago"@);
}

/// Zero seconds ago is now.
pub proof fn lemma_zero_seconds_ago(now: u64)
    ensures
        time_offset(now, "0 seconds ago"@) == Some(now),
{
    let s = "0 seconds ago"@;
    reveal_strlit("0 seconds ago");
    reveal_strlit("second");
    reveal_strlit("ago");
    assert(!is_space(s[0]) && !is_space(s[12]));
    assert(trimmed(s) == s);
    lemma_split_at(s, ' ', 1);
    let rest = s.skip(2);
    assert(rest.len() == 11);
    assert forall|i: int| 0 <= i < 7 implies rest[i] != ' ' by {
        assert(rest[i] == s[i + 2]);
    }
    assert(rest[7] == s[9]);
    lemma_split_at(rest, ' ', 7);
    let last = rest.skip(8);
    assert(last.len() == 3);
    assert forall|i: int| 0 <= i < 3 implies last[i] != ' ' by {
        assert(last[i] == s[i + 10]);
    }
    lemma_split_whole(last, ' ');
    let parts = split_on(s, ' ');
    assert(parts =~= seq![s.take(1), rest.take(7), last]);
    assert(last =~= "ago"@);
    assert(singular(parts[1]) =~= "second"@);
    let count = parts[0];
    assert(count.len() == 1 && count[0] == '0');
    assert(count.drop_last().len() == 0);
    assert(digits_value(count.drop_last()) == 0);
    assert(digits_value(count) == 0);
    assert(parse_nat(count) == Some(0nat));
    assert(parts.len() == 3 && parts[2] == "ago"@);
    assert(unit_seconds(parts[1]) == Some(1nat));
    assert(0nat * 1nat == 0);
    assert(time_offset(now, s) == Some(now));
}

/// One year ago is 365 days before now, for every instant from which a
/// year can be counted back.
pub proof fn lemma_one_year_ago(now: u64)
    requires
        now >= 365 * 86400,
    ensures
        time_offset(now, "1 year ago"@) == Some((now - 365 * 86400) as u64),
{
    let s = "1 year ago"@;
    reveal_strlit("1 year ago");
    reveal_strlit("second");
    reveal_strlit("minute");
    reveal_strlit("hour");
    reveal_strlit("day");
    reveal_strlit("week");
    reveal_strlit("month");
    reveal_strlit("year");
    reveal_strlit("ago");
    assert(!is_space(s[0]) && !is_space(s[9]));
    assert(trimmed(s) == s);
    lemma_split_at(s, ' ', 1);
    let rest = s.skip(2);
    assert(rest.len() == 8);
    assert forall|i: int| 0 <= i < 4 implies rest[i] != ' ' by {
        assert(rest[i] == s[i + 2]);
    }
    assert(rest[4] == s[6]);
    lemma_split_at(rest, ' ', 4);
    let last = rest.skip(5);
    assert(last.len() == 3);
    assert forall|i: int| 0 <= i < 3 implies last[i] != ' ' by {
        assert(last[i] == s[i + 7]);
    }
    lemma_split_whole(last, ' ');
    let parts = split_on(s, ' ');
    assert(parts =~= seq![s.take(1), rest.take(4), last]);
    assert(last =~= "ago"@);
    let unit = parts[1];
    assert(unit =~= "year"@);
    assert(unit[3] == 'r');
    assert(singular(unit) == unit);
    assert(unit.len() != "second"@.len());
    assert(unit.len() != "minute"@.len());
    assert(unit[0] != "hour"@[0]);
    assert(unit.len() != "day"@.len());
    assert(unit[0] != "week"@[0]);
    assert(unit.len() != "month"@.len());
    assert(unit_seconds(unit) == Some(31536000nat));
    let count = parts[0];
    assert(count.len() == 1 && count[0] == '1');
    assert(count.drop_last().len() == 0);
    assert(digits_value(count.drop_last()) == 0);
    assert(digits_value(count) == 1);
    assert(parse_nat(count) == Some(1nat));
    assert(parts.len() == 3 && parts[2] == "ago"@);
    assert(1nat * 31536000nat == 31536000);
    assert(time_offset(now, s) == Some((now - 31536000) as u64));
}

/// A text of fewer than three words, or with a unit that is none, names no
/// instant, whatever `now` is.
pub proof fn lemma_malformed_times(now: u64)
    ensures
        time_offset(now, ""@) is None,
        time_offset(now, "ago"@) is None,
        time_offset(now, "5 ago"@) is None,
        time_offset(now, "5 fortnights ago"@) is None,
{
    reveal_strlit("");
    reveal_strlit("ago");
    reveal_strlit("5 ago");
    reveal_strlit("5 fortnights ago");
    assert(time_offset(now, ""@) is None) by {
        let s = ""@;
        assert(trimmed(s) == s);
        lemma_split_whole(s, ' ');
    }
    assert(time_offset(now, "ago"@) is None) by {
        let s = "ago"@;
        assert(!is_space(s[0]) && !is_space(s[2]));
        assert(trimmed(s) == s);
        lemma_split_whole(s, ' ');
    }
    assert(time_offset(now, "5 ago"@) is None) by {
        let s = "5 ago"@;
        assert(!is_space(s[0]) && !is_space(s[4]));
        assert(trimmed(s) == s);
        lemma_split_at(s, ' ', 1);
        let last = s.skip(2);
        assert forall|i: int| 0 <= i < 3 implies last[i] != ' ' by {
            assert(last[i] == s[i + 2]);
        }
        lemma_split_whole(last, ' ');
        assert(split_on(s, ' ') =~= seq![s.take(1), last]);
    }
    assert(time_offset(now, "5 fortnights ago"@) is None) by {
        let s = "5 fortnights ago"@;
        reveal_strlit("second");
        reveal_strlit("minute");
        reveal_strlit("hour");
        reveal_strlit("day");
        reveal_strlit("week");
        reveal_strlit("month");
        reveal_strlit("year");
        reveal_strlit("decade");
        assert(!is_space(s[0]) && !is_space(s[15]));
        assert(trimmed(s) == s);
        lemma_split_at(s, ' ', 1);
        let rest = s.skip(2);
        assert(rest.len() == 14);
        assert forall|i: int| 0 <= i < 10 implies rest[i] != ' ' by {
            assert(rest[i] == s[i + 2]);
        }
        assert(rest[10] == s[12]);
        lemma_split_at(rest, ' ', 10);
        let last = rest.skip(11);
        assert forall|i: int| 0 <= i < 3 implies last[i] != ' ' by {
            assert(last[i] == s[i + 13]);
        }
        lemma_split_whole(last, ' ');
        let parts = split_on(s, ' ');
        assert(parts =~= seq![s.take(1), rest.take(10), last]);
        let unit = parts[1];
        assert(unit.len() == 10);
        assert(unit[9] == s[11]);
        assert(singular(unit).len() == 9);
        assert(unit_seconds(unit) is None);
    }
}

/// `s` without any occurrence of `c`.
pub open spec fn without(s: Seq<char>, c: char) -> Seq<char>
    decreases s.len(),
{
    if s.len() == 0 {
        s
    } else if s.last() == c {
        without(s.drop_last(), c)
    } else {
        without(s.drop_last(), c).push(s.last())
    }
}

fn remove_char(v: &[char], c: char) -> (r: Vec<char>)
    ensures
        r@ == without(v@, c),
{
    let mut r: Vec<char> = Vec::new();
    let mut i: usize = 0;
    while i < v.len()
        invariant
            i <= v.len(),
            r@ == without(v@.take(i as int), c),
        decreases v.len() - i,
    {
        proof {
            assert(v@.take(i + 1).drop_last() =~= v@.take(i as int));
        }
        if v[i] != c {
            r.push(v[i]);
        }
        i += 1;
    }
    proof {
        assert(v@.take(i as int) =~= v@);
    }
    r
}

/// Ten to the power `n`.
pub open spec fn pow10(n: nat) -> nat
    decreases n,
{
    if n == 0 {
        1
    } else {
        10 * pow10((n - 1) as nat)
    }
}

/// No power of ten is zero.
pub proof fn lemma_pow10_positive(n: nat)
    ensures
        pow10(n) > 0,
    decreases n,
{
    if n > 0 {
        lemma_pow10_positive((n - 1) as nat);
    }
}

/// The digits before the decimal point of a number text.
pub open spec fn whole_digits(s: Seq<char>) -> Seq<char> {
    let b = unsigned_body(s);
    b.take(first_index(b, '.'))
}

/// The digits behind the decimal point of a number text; none where it has
/// no point.
pub open spec fn fraction_digits(s: Seq<char>) -> Seq<char> {
    let b = unsigned_body(s);
    let k = first_index(b, '.');
    if k < b.len() {
        b.skip(k + 1)
    } else {
        Seq::empty()
    }
}

/// Whether `s` writes a non-negative decimal number: an optional `+`, then
/// digits with at most one point among them, before them or behind them,
/// and at least one digit.
pub open spec fn is_decimal(s: Seq<char>) -> bool {
    &&& all_digits(whole_digits(s))
    &&& all_digits(fraction_digits(s))
    &&& whole_digits(s).len() + fraction_digits(s).len() > 0
}

/// The decimal number `s` times `mult`, rounded down to a whole number.
pub open spec fn scaled_floor(s: Seq<char>, mult: nat) -> nat {
    (digits_value(whole_digits(s) + fraction_digits(s)) * mult / pow10(
        fraction_digits(s).len(),
    )) as nat
}

/// `n`, or the largest `u64` where `n` is beyond it.
pub open spec fn saturated(n: nat) -> u64 {
    if n > u64::MAX {
        u64::MAX
    } else {
        n as u64
    }
}

/// A digit string that is joined from two denotes the first part shifted
/// left by the length of the second, plus the second.
pub proof fn lemma_digits_value_concat(a: Seq<char>, b: Seq<char>)
    ensures
        digits_value(a + b) == digits_value(a) * pow10(b.len()) + digits_value(b),
    decreases b.len(),
{
    if b.len() == 0 {
        assert(a + b =~= a);
        assert(pow10(0) == 1);
        assert(digits_value(b) == 0);
        assert(digits_value(a) * 1 == digits_value(a));
    } else {
        let b0 = b.drop_last();
        assert((a + b).drop_last() =~= a + b0);
        assert((a + b).last() == b.last());
        lemma_digits_value_concat(a, b0);
        let x = digits_value(a);
        let p = pow10(b0.len());
        let y = digits_value(b0);
        let l = digit_value(b.last());
        assert(pow10(b.len()) == 10 * p);
        assert(digits_value(a + b) == digits_value(a + b0) * 10 + l);
        assert(digits_value(b) == y * 10 + l);
        assert(digits_value(a + b0) == x * p + y);
        assert((x * p + y) * 10 == x * (10 * p) + y * 10) by (nonlinear_arith);
    }
}

/// What the digits behind the point contribute to the scaled number,
/// computed digit by digit from the right.
pub open spec fn fraction_floor(frac: Seq<char>, mult: nat) -> nat
    decreases frac.len(),
{
    if frac.len() == 0 {
        0
    } else {
        (digit_value(frac[0]) * mult + fraction_floor(frac.drop_first(), mult)) / 10
    }
}

/// Rounding down after each digit gives what rounding down once gives.
pub proof fn lemma_fraction_floor(frac: Seq<char>, mult: nat)
    ensures
        fraction_floor(frac, mult) == digits_value(frac) * mult / pow10(frac.len()),
    decreases frac.len(),
{
    if frac.len() == 0 {
        assert(digits_value(frac) * mult == 0) by (nonlinear_arith)
            requires
                digits_value(frac) == 0,
        ;
    } else {
        let rest = frac.drop_first();
        let d = digit_value(frac[0]);
        let p = pow10(rest.len());
        lemma_pow10_positive(rest.len());
        lemma_fraction_floor(rest, mult);
        let head = seq![frac[0]];
        assert(head + rest =~= frac);
        lemma_digits_value_concat(head, rest);
        assert(head.drop_last() =~= Seq::<char>::empty());
        assert(digits_value(head.drop_last()) == 0);
        assert(head.last() == frac[0]);
        assert(digits_value(head) == d);
        assert(pow10(rest.len()) == p);
        assert(d * p == digits_value(head) * pow10(rest.len()));
        let r = digits_value(rest);
        assert(digits_value(frac) == d * p + r);
        assert((d * p + r) * mult == r * mult + (d * mult) * p) by (nonlinear_arith);
        lemma_hoist_over_denominator((r * mult) as int, (d * mult) as int, p);
        assert((digits_value(frac) * mult) / p == d * mult + fraction_floor(rest, mult));
        assert(0 <= digits_value(frac) * mult) by (nonlinear_arith);
        lemma_div_denominator((digits_value(frac) * mult) as int, p as int, 10);
        assert(pow10(frac.len()) == 10 * p);
        assert(p * 10 == 10 * p);
    }
}

fn fraction_scaled(frac: &[char], mult: u64) -> (r: Option<u64>)
    requires
        1 <= mult <= 0x100_0000_0000,
    ensures
        r is Some <==> all_digits(frac@),
        r matches Some(t) ==> t == digits_value(frac@) * (mult as nat) / pow10(frac@.len()) && t
            < mult,
{
    let mut t: u64 = 0;
    let mut i: usize = frac.len();
    proof {
        assert(frac@.skip(i as int) =~= Seq::<char>::empty());
    }
    while i > 0
        invariant
            i <= frac.len(),
            1 <= mult <= 0x100_0000_0000,
            all_digits(frac@.skip(i as int)),
            t == fraction_floor(frac@.skip(i as int), mult as nat),
            t < mult,
        decreases i,
    {
        i -= 1;
        let d = match digit_of(frac[i]) {
            Some(d) => d,
            None => {
                assert(!is_digit(frac@[i as int]));
                return None;
            },
        };
        proof {
            let cur = frac@.skip(i as int);
            assert(cur.drop_first() =~= frac@.skip(i + 1));
            assert(cur[0] == frac@[i as int]);
            assert forall|j: int| 0 <= j < cur.len() implies is_digit(#[trigger] cur[j]) by {
                if j > 0 {
                    assert(frac@.skip(i + 1)[j - 1] == cur[j]);
                }
            }
            assert(d * mult <= 9 * 0x100_0000_0000) by (nonlinear_arith)
                requires
                    d <= 9,
                    mult <= 0x100_0000_0000,
            ;
            assert(d * mult <= 9 * mult) by (nonlinear_arith)
                requires
                    d <= 9,
                    mult >= 0,
            ;
        }
        t = (d as u64 * mult + t) / 10;
    }
    proof {
        assert(frac@.skip(0) =~= frac@);
        lemma_fraction_floor(frac@, mult as nat);
    }
    Some(t)
}

/// `mult` times the decimal number that `num` writes, rounded down and
/// held to the range of `u64`.
fn scale_decimal(num: &[char], mult: u64) -> (r: Option<u64>)
    requires
        1 <= mult <= 0x100_0000_0000,
    ensures
        r == if is_decimal(num@) {
            Some(saturated(scaled_floor(num@, mult as nat)))
        } else {
            None
        },
{
    let b = skip_plus(num);
    let k = find_first(b, '.');
    let whole = slice_subrange(b, 0, k);
    let frac = if k < b.len() {
        slice_subrange(b, k + 1, b.len())
    } else {
        slice_subrange(b, k, k)
    };
    proof {
        assert(whole@ =~= whole_digits(num@));
        assert(frac@ =~= fraction_digits(num@));
    }
    if whole.len() == 0 && frac.len() == 0 {
        return None;
    }
    let part = match fraction_scaled(frac, mult) {
        Some(t) => t,
        None => {
            return None;
        },
    };
    let reading = read_digits(whole, u64::MAX);
    proof {
        let w = digits_value(whole@);
        let f = digits_value(frac@);
        let p = pow10(frac@.len());
        let m = mult as nat;
        lemma_pow10_positive(frac@.len());
        lemma_digits_value_concat(whole@, frac@);
        assert((w * p + f) * m == f * m + (w * m) * p) by (nonlinear_arith);
        lemma_hoist_over_denominator((f * m) as int, (w * m) as int, p);
        assert(scaled_floor(num@, m) == w * m + part);
        assert(w * m >= w) by (nonlinear_arith)
            requires
                m >= 1,
                w >= 0,
        ;
    }
    match reading {
        Reading::NotDigits => None,
        Reading::Above => Some(u64::MAX),
        Reading::Exact(w) => {
            assert(w * mult <= 0xffff_ffff_ffff_ffff * 0x100_0000_0000) by (nonlinear_arith)
                requires
                    w <= 0xffff_ffff_ffff_ffff,
                    mult <= 0x100_0000_0000,
            ;
            let total: u128 = w as u128 * mult as u128 + part as u128;
            if total > u64::MAX as u128 {
                Some(u64::MAX)
            } else {
                Some(total as u64)
            }
        },
    }
}

/// The number of bytes in a unit of size, named with or without one
/// trailing `s`; each unit is 1024 of the one before.
pub open spec fn unit_bytes(u: Seq<char>) -> Option<nat> {
    let w = singular(u);
    if w == "B"@ {
        Some(1)
    } else if w == "KB"@ {
        Some(1024)
    } else if w == "MB"@ {
        Some(1048576)
    } else if w == "GB"@ {
        Some(1073741824)
    } else if w == "TB"@ {
        Some(1099511627776)
    } else {
        None
    }
}

fn bytes_per(unit: &[char]) -> (r: Option<u64>)
    ensures
        match r {
            Some(m) => unit_bytes(unit@) == Some(m as nat) && 1 <= m <= 0x100_0000_0000,
            None => unit_bytes(unit@) is None,
        },
{
    let w = strip_plural(unit);
    if same_chars(w, "B") {
        Some(1)
    } else if same_chars(w, "KB") {
        Some(1024)
    } else if same_chars(w, "MB") {
        Some(1048576)
    } else if same_chars(w, "GB") {
        Some(1073741824)
    } else if same_chars(w, "TB") {
        Some(1099511627776)
    } else {
        None
    }
}

/// The number of bytes that `text` names.
///
/// The text, trimmed, must be two words parted by one space: a decimal
/// number, in which commas are passed over, and a unit of size. The count is
/// rounded down to whole bytes and held to the range of `u64`.
pub open spec fn data_size(text: Seq<char>) -> Option<u64> {
    let parts = split_on(trimmed(text), ' ');
    if parts.len() != 2 {
        None
    } else {
        let number = without(parts[0], ',');
        match unit_bytes(parts[1]) {
            Some(m) => if is_decimal(number) {
                Some(saturated(scaled_floor(number, m)))
            } else {
                None
            },
            None => None,
        }
    }
}

/// A unit of size is a word without white space.
pub proof fn lemma_size_unit_is_a_word(u: Seq<char>)
    requires
        unit_bytes(u) is Some,
    ensures
        u.len() > 0,
        forall|i: int| 0 <= i < u.len() ==> !is_space(#[trigger] u[i]),
{
    reveal_strlit("B");
    reveal_strlit("KB");
    reveal_strlit("MB");
    reveal_strlit("GB");
    reveal_strlit("TB");
    let w = singular(u);
    assert(w.len() > 0);
    assert forall|i: int| 0 <= i < w.len() implies !is_space(#[trigger] w[i]) by {
        if w == "B"@ {
            assert(w[i] == "B"@[i]);
        } else if w == "KB"@ {
            assert(w[i] == "KB"@[i]);
        } else if w == "MB"@ {
            assert(w[i] == "MB"@[i]);
        } else if w == "GB"@ {
            assert(w[i] == "GB"@[i]);
        } else {
            assert(w[i] == "TB"@[i]);
        }
    }
    assert forall|i: int| 0 <= i < u.len() implies !is_space(#[trigger] u[i]) by {
        if i < w.len() {
            assert(u[i] == w[i]);
        }
    }
}

/// Taking out a character that does not occur changes nothing.
pub proof fn lemma_without_absent(s: Seq<char>, c: char)
    requires
        forall|i: int| 0 <= i < s.len() ==> s[i] != c,
    ensures
        without(s, c) == s,
    decreases s.len(),
{
    if s.len() > 0 {
        lemma_without_absent(s.drop_last(), c);
        assert(s.drop_last().push(s.last()) =~= s);
    }
}

/// A whole number and a unit of size, parted by one space, name the number
/// times the unit's bytes, held to the range of `u64`.
pub proof fn lemma_counted_size(n: nat, u: Seq<char>, m: nat)
    requires
        unit_bytes(u) == Some(m),
    ensures
        data_size(decimal(n) + " "@ + u) == Some(saturated(n * m)),
{
    reveal_strlit(" ");
    lemma_size_unit_is_a_word(u);
    lemma_decimal_reads_back(n);
    let count = decimal(n);
    let s = count + " "@ + u;
    let k = count.len() as int;
    assert(s.len() == k + 1 + u.len());
    assert(s[0] == count[0] && is_digit(count[0]));
    assert(s.last() == u.last());
    assert(trimmed(s) == s);
    assert forall|i: int| 0 <= i < k implies s[i] != ' ' by {
        assert(s[i] == count[i] && is_digit(count[i]));
    }
    assert(s[k] == " "@[0]);
    lemma_split_at(s, ' ', k);
    let rest = s.skip(k + 1);
    assert(rest =~= u);
    lemma_split_whole(rest, ' ');
    let parts = split_on(s, ' ');
    assert(parts =~= seq![s.take(k), rest]);
    assert(parts[0] =~= count);
    assert forall|i: int| 0 <= i < k implies count[i] != ',' && count[i] != '.' by {
        assert(is_digit(count[i]));
    }
    lemma_without_absent(count, ',');
    assert(unsigned_body(count) == count);
    lemma_first_index(count, '.', k);
    assert(whole_digits(count) =~= count);
    assert(fraction_digits(count) =~= Seq::<char>::empty());
    assert(whole_digits(count) + fraction_digits(count) =~= count);
    assert(pow10(0) == 1);
    assert(is_decimal(count));
    assert(scaled_floor(count, m) == n * m);
}

fn size_of_chars(v: &[char]) -> (r: Option<u64>)
    ensures
        r == data_size(v@),
{
    let body = trim(v);
    let parts = split(body, ' ');
    if parts.len() != 2 {
        return None;
    }
    let ghost model = split_on(trimmed(v@), ' ');
    assert(parts[0]@ == model[0] && parts[1]@ == model[1]);
    let number = remove_char(parts[0], ',');
    match bytes_per(parts[1]) {
        Some(m) => scale_decimal(number.as_slice(), m),
        None => None,
    }
}

/// Turns a size such as `87.8 MB` or `1,024 B` into a number of bytes.
pub fn parse_data_size(value: &str) -> (r: Option<u64>)
    ensures
        r == data_size(value@),
{
    let chars = chars_of(value);
    size_of_chars(chars.as_slice())
}

/// The file that a listing entry names.
///
/// The entry, trimmed, must end with `)`. It is parted at its last `(`: what
/// stands before, trimmed, is the name and must not be empty; what stands
/// between the two brackets is the size.
pub open spec fn file_entry(text: Seq<char>) -> Option<FileView> {
    let v = trimmed(text);
    let k = last_index(v, '(');
    if v.len() == 0 || v.last() != ')' || k < 0 {
        None
    } else {
        let name = trimmed(v.take(k));
        match data_size(v.subrange(k + 1, v.len() - 1)) {
            Some(size) => if name.len() > 0 {
                Some(FileView { name, size })
            } else {
                None
            },
            None => None,
        }
    }
}

/// A name, a space and a size in round brackets name the file of that name
/// and size; the name may hold brackets of its own.
pub proof fn lemma_file_entry_of(name: Seq<char>, size: Seq<char>, bytes: u64)
    requires
        name.len() > 0,
        !is_space(name[0]),
        !is_space(name.last()),
        forall|i: int| 0 <= i < size.len() ==> size[i] != '(',
        data_size(size) == Some(bytes),
    ensures
        file_entry(name + " ("@ + size + ")"@) == Some(FileView { name, size: bytes }),
{
    reveal_strlit(" (");
    reveal_strlit(")");
    let s = name + " ("@ + size + ")"@;
    let n = name.len() as int;
    assert(s.len() == n + 2 + size.len() + 1);
    assert(s[0] == name[0]);
    assert(s.last() == ")"@[0]);
    assert(trimmed(s) == s);
    assert(s[n + 1] == " ("@[1]);
    assert forall|i: int| n + 1 < i < s.len() implies s[i] != '(' by {
        if i < s.len() - 1 {
            assert(s[i] == size[i - n - 2]);
        }
    }
    lemma_last_index(s, '(', n + 1);
    let before = s.take(n + 1);
    assert(before =~= name.push(' '));
    assert(before.drop_last() =~= name);
    assert(trimmed(before) == trimmed(name));
    assert(trimmed(name) == name);
    assert(s.subrange(n + 2, s.len() - 1) =~= size);
}

/// What `r` holds, as plain values.
pub open spec fn file_view(r: Option<File>) -> Option<FileView> {
    match r {
        Some(f) => Some(f@),
        None => None,
    }
}

pub(crate) fn file_of_chars(chars: &[char]) -> (r: Option<File>)
    ensures
        file_view(r) == file_entry(chars@),
{
    let v = trim(chars);
    if v.len() == 0 || v[v.len() - 1] != ')' {
        return None;
    }
    let k = match find_last(v, '(') {
        Some(k) => k,
        None => {
            return None;
        },
    };
    let name = trim(slice_subrange(v, 0, k));
    let size = match size_of_chars(slice_subrange(v, k + 1, v.len() - 1)) {
        Some(size) => size,
        None => {
            return None;
        },
    };
    if name.len() == 0 {
        return None;
    }
    Some(File { name: string_of(name), size })
}

/// Turns a listing entry such as `File(2) Name (1.2 GB)` into a [`File`].
pub fn parse_file(value: &str) -> (r: Option<File>)
    ensures
        file_view(r) == file_entry(value@),
{
    let chars = chars_of(value);
    file_of_chars(chars.as_slice())
}

} // verus!
