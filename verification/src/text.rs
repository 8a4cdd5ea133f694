//! Character-level helpers shared by the parsers.

use vstd::prelude::*;
use vstd::slice::{slice_subrange, slice_to_vec};
use vstd::std_specs::iter::IteratorSpec;
use vstd::string::StringExecFns;

verus! {

/// The characters of `s`, in order.
pub fn chars_of(s: &str) -> (v: Vec<char>)
    ensures
        v@ == s@,
{
    let mut v: Vec<char> = Vec::new();
    for c in it: s.chars()
        invariant
            it.seq() == s@,
            v@ == it.seq().take(it.index() as int),
    {
        v.push(c);
    }
    v
}

/// `String::push`: the string grows by exactly the one character.
#[verifier::external_body]
fn push_char(s: &mut String, c: char)
    ensures
        final(s)@ == old(s)@.push(c),
{
    s.push(c)
}

/// A string holding exactly the characters of `v`.
pub fn string_of(v: &[char]) -> (s: String)
    ensures
        s@ == v@,
{
    let mut s = String::new();
    let mut i: usize = 0;
    while i < v.len()
        invariant
            i <= v.len(),
            s@ == v@.take(i as int),
        decreases v.len() - i,
    {
        push_char(&mut s, v[i]);
        i += 1;
    }
    s
}

/// Whether `c` is an ASCII decimal digit.
pub open spec fn is_digit(c: char) -> bool {
    '0' <= c <= '9'
}

/// The number a decimal digit stands for.
pub open spec fn digit_value(c: char) -> nat {
    (c as nat - '0' as nat) as nat
}

/// The number that `c` stands for, where it is a decimal digit.
pub fn digit_of(c: char) -> (r: Option<u8>)
    ensures
        r is Some <==> is_digit(c),
        r matches Some(d) ==> d == digit_value(c) && d <= 9,
{
    if c >= '0' && c <= '9' {
        Some((c as u32 - '0' as u32) as u8)
    } else {
        None
    }
}

/// Unicode white space, as `char::is_whitespace` defines it.
pub open spec fn is_space(c: char) -> bool {
    ||| c == ' '
    ||| '\u{9}' <= c <= '\u{d}'
    ||| c == '\u{85}'
    ||| c == '\u{a0}'
    ||| c == '\u{1680}'
    ||| '\u{2000}' <= c <= '\u{200a}'
    ||| c == '\u{2028}'
    ||| c == '\u{2029}'
    ||| c == '\u{202f}'
    ||| c == '\u{205f}'
    ||| c == '\u{3000}'
}

/// Whether `c` is white space.
pub fn space(c: char) -> (r: bool)
    ensures
        r == is_space(c),
{
    c == ' ' || (c >= '\u{9}' && c <= '\u{d}') || c == '\u{85}' || c == '\u{a0}' || c == '\u{1680}'
        || (c >= '\u{2000}' && c <= '\u{200a}') || c == '\u{2028}' || c == '\u{2029}' || c
        == '\u{202f}' || c == '\u{205f}' || c == '\u{3000}'
}

/// `s` without its leading and trailing white space.
pub open spec fn trimmed(s: Seq<char>) -> Seq<char>
    decreases s.len(),
{
    if s.len() == 0 {
        s
    } else if is_space(s[0]) {
        trimmed(s.drop_first())
    } else if is_space(s.last()) {
        trimmed(s.drop_last())
    } else {
        s
    }
}

/// The window `[a, b)` of `s` is `trimmed(s)` when only white space lies
/// outside it and it neither starts nor ends with white space.
pub proof fn lemma_trimmed_window(s: Seq<char>, a: int, b: int)
    requires
        0 <= a <= b <= s.len(),
        forall|i: int| 0 <= i < a ==> is_space(s[i]),
        forall|i: int| b <= i < s.len() ==> is_space(s[i]),
        a < b ==> !is_space(s[a]) && !is_space(s[b - 1]),
    ensures
        trimmed(s) == s.subrange(a, b),
    decreases s.len(),
{
    if s.len() == 0 {
        assert(s.subrange(a, b) =~= s);
    } else if a > 0 {
        let t = s.drop_first();
        assert forall|i: int| 0 <= i < a - 1 implies is_space(t[i]) by {
            assert(t[i] == s[i + 1]);
        }
        assert forall|i: int| b - 1 <= i < t.len() implies is_space(t[i]) by {
            assert(t[i] == s[i + 1]);
        }
        lemma_trimmed_window(t, a - 1, b - 1);
        assert(t.subrange(a - 1, b - 1) =~= s.subrange(a, b));
    } else if b < s.len() {
        let t = s.drop_last();
        if b == 0 {
            assert(is_space(s[0]));
            let u = s.drop_first();
            assert forall|i: int| 0 <= i < u.len() implies is_space(u[i]) by {
                assert(u[i] == s[i + 1]);
            }
            lemma_trimmed_window(u, 0, 0);
            assert(u.subrange(0, 0) =~= s.subrange(a, b));
        } else {
            lemma_trimmed_window(t, a, b);
            assert(t.subrange(a, b) =~= s.subrange(a, b));
        }
    } else {
        assert(s.subrange(a, b) =~= s);
    }
}

/// The bounds of `trimmed(v@)` inside `v`.
pub fn trim_bounds(v: &[char]) -> (r: (usize, usize))
    ensures
        r.0 <= r.1 <= v.len(),
        v@.subrange(r.0 as int, r.1 as int) == trimmed(v@),
{
    let mut a: usize = 0;
    while a < v.len() && space(v[a])
        invariant
            a <= v.len(),
            forall|i: int| 0 <= i < a ==> is_space(v@[i]),
        decreases v.len() - a,
    {
        a += 1;
    }
    let mut b: usize = v.len();
    while b > a && space(v[b - 1])
        invariant
            a <= b <= v.len(),
            forall|i: int| b <= i < v.len() ==> is_space(v@[i]),
        decreases b,
    {
        b -= 1;
    }
    proof {
        lemma_trimmed_window(v@, a as int, b as int);
    }
    (a, b)
}

/// The characters of `trimmed(v@)`.
pub fn trim(v: &[char]) -> (r: &[char])
    ensures
        r@ == trimmed(v@),
{
    let (a, b) = trim_bounds(v);
    slice_subrange(v, a, b)
}

/// The position of the first `c` in `s`, or `s.len()` when there is none.
pub open spec fn first_index(s: Seq<char>, c: char) -> int
    decreases s.len(),
{
    if s.len() == 0 {
        0
    } else if s[0] == c {
        0
    } else {
        1 + first_index(s.drop_first(), c)
    }
}

/// The first `c` stands at `k` where none stands before `k` and one stands
/// there, or `k` is the end of `s`.
pub proof fn lemma_first_index(s: Seq<char>, c: char, k: int)
    requires
        0 <= k <= s.len(),
        forall|i: int| 0 <= i < k ==> s[i] != c,
        k < s.len() ==> s[k] == c,
    ensures
        first_index(s, c) == k,
    decreases s.len(),
{
    if s.len() != 0 && k > 0 {
        let t = s.drop_first();
        assert forall|i: int| 0 <= i < k - 1 implies t[i] != c by {
            assert(t[i] == s[i + 1]);
        }
        lemma_first_index(t, c, k - 1);
    }
}

/// The position of the first `c` in `v`, or `v.len()`.
pub fn find_first(v: &[char], c: char) -> (k: usize)
    ensures
        k == first_index(v@, c),
        k <= v.len(),
{
    let mut k: usize = 0;
    while k < v.len() && v[k] != c
        invariant
            k <= v.len(),
            forall|i: int| 0 <= i < k ==> v@[i] != c,
        decreases v.len() - k,
    {
        k += 1;
    }
    proof {
        lemma_first_index(v@, c, k as int);
    }
    k
}

/// The position of the last `c` in `s`, or -1 when there is none.
pub open spec fn last_index(s: Seq<char>, c: char) -> int
    decreases s.len(),
{
    if s.len() == 0 {
        -1
    } else if s.last() == c {
        s.len() - 1
    } else {
        last_index(s.drop_last(), c)
    }
}

/// The last `c` stands at `k` where one stands there and none behind.
pub proof fn lemma_last_index(s: Seq<char>, c: char, k: int)
    requires
        0 <= k < s.len(),
        s[k] == c,
        forall|i: int| k < i < s.len() ==> s[i] != c,
    ensures
        last_index(s, c) == k,
    decreases s.len(),
{
    if k < s.len() - 1 {
        lemma_last_index(s.drop_last(), c, k);
    }
}

/// The position of the last `c` in `v`, if there is one.
pub fn find_last(v: &[char], c: char) -> (r: Option<usize>)
    ensures
        match r {
            Some(k) => k == last_index(v@, c) && k < v.len() && v@[k as int] == c,
            None => last_index(v@, c) == -1,
        },
{
    let mut k: usize = v.len();
    proof {
        assert(v@.take(k as int) =~= v@);
    }
    while k > 0
        invariant
            k <= v.len(),
            last_index(v@, c) == last_index(v@.take(k as int), c),
        decreases k,
    {
        proof {
            assert(v@.take(k as int).drop_last() =~= v@.take(k - 1));
        }
        if v[k - 1] == c {
            return Some(k - 1);
        }
        k -= 1;
    }
    None
}

/// The pieces of `s` between occurrences of `sep`; a text without `sep` is
/// one piece, and two adjacent separators enclose an empty piece.
pub open spec fn split_on(s: Seq<char>, sep: char) -> Seq<Seq<char>>
    decreases s.len(),
{
    let k = first_index(s, sep);
    if 0 <= k < s.len() {
        seq![s.take(k)] + split_on(s.skip(k + 1), sep)
    } else {
        seq![s]
    }
}

/// A text without `sep` is one piece.
pub proof fn lemma_split_whole(s: Seq<char>, sep: char)
    requires
        forall|i: int| 0 <= i < s.len() ==> s[i] != sep,
    ensures
        split_on(s, sep) == seq![s],
{
    lemma_first_index(s, sep, s.len() as int);
}

/// A text whose first `sep` stands at `k` parts into what stands before
/// `k` and the pieces of what stands behind.
pub proof fn lemma_split_at(s: Seq<char>, sep: char, k: int)
    requires
        0 <= k < s.len(),
        s[k] == sep,
        forall|i: int| 0 <= i < k ==> s[i] != sep,
    ensures
        split_on(s, sep) == seq![s.take(k)] + split_on(s.skip(k + 1), sep),
{
    lemma_first_index(s, sep, k);
}

/// The pieces of `v` between occurrences of `sep`, as windows of `v`.
pub fn split<'a>(v: &'a [char], sep: char) -> (parts: Vec<&'a [char]>)
    ensures
        parts@.map_values(|p: &[char]| p@) == split_on(v@, sep),
{
    let mut parts: Vec<&'a [char]> = Vec::new();
    let mut start: usize = 0;
    proof {
        assert(v@.skip(0) =~= v@);
        assert(parts@.map_values(|p: &[char]| p@) + split_on(v@, sep) =~= split_on(v@, sep));
    }
    loop
        invariant_except_break
            start <= v.len(),
            split_on(v@, sep) == parts@.map_values(|p: &[char]| p@) + split_on(
                v@.skip(start as int),
                sep,
            ),
        ensures
            parts@.map_values(|p: &[char]| p@) == split_on(v@, sep),
        decreases v.len() - start,
    {
        let rest = slice_subrange(v, start, v.len());
        assert(rest@ =~= v@.skip(start as int));
        let k = find_first(rest, sep);
        let ghost before = parts@.map_values(|p: &[char]| p@);
        if k < rest.len() {
            let piece = slice_subrange(v, start, start + k);
            parts.push(piece);
            proof {
                assert(piece@ =~= rest@.take(k as int));
                assert(rest@.skip(k + 1) =~= v@.skip(start + k + 1));
                assert(parts@.map_values(|p: &[char]| p@) =~= before + seq![piece@]);
                assert(before + (seq![piece@] + split_on(rest@.skip(k + 1), sep)) =~= (before
                    + seq![piece@]) + split_on(rest@.skip(k + 1), sep));
            }
            start = start + k + 1;
        } else {
            parts.push(rest);
            proof {
                assert(parts@.map_values(|p: &[char]| p@) =~= before + seq![rest@]);
            }
            break;
        }
    }
    parts
}

/// Whether every character of `s` is a decimal digit.
pub open spec fn all_digits(s: Seq<char>) -> bool {
    forall|i: int| 0 <= i < s.len() ==> is_digit(#[trigger] s[i])
}

/// The number that a string of decimal digits denotes.
pub open spec fn digits_value(s: Seq<char>) -> nat
    decreases s.len(),
{
    if s.len() == 0 {
        0
    } else {
        digits_value(s.drop_last()) * 10 + digit_value(s.last())
    }
}

/// `s` without one leading plus sign.
pub open spec fn unsigned_body(s: Seq<char>) -> Seq<char> {
    if s.len() > 0 && s[0] == '+' {
        s.drop_first()
    } else {
        s
    }
}

/// The natural number written in `s`: an optional `+`, then one or more
/// decimal digits and nothing else.
pub open spec fn parse_nat(s: Seq<char>) -> Option<nat> {
    let d = unsigned_body(s);
    if d.len() > 0 && all_digits(d) {
        Some(digits_value(d))
    } else {
        None
    }
}

/// What a run of characters amounts to as a decimal number.
pub enum Reading {
    /// Some character is no decimal digit.
    NotDigits,
    /// All are digits, and the number is above the limit asked for.
    Above,
    /// All are digits, and this is the number.
    Exact(u64),
}

/// Reads `d` as a run of decimal digits denoting at most `max`.
pub fn read_digits(d: &[char], max: u64) -> (r: Reading)
    ensures
        r is NotDigits <==> !all_digits(d@),
        r is Above ==> digits_value(d@) > max,
        r matches Reading::Exact(n) ==> n == digits_value(d@) && n <= max,
{
    let mut acc: u64 = 0;
    let mut over: bool = false;
    let mut i: usize = 0;
    while i < d.len()
        invariant
            i <= d.len(),
            all_digits(d@.take(i as int)),
            !over ==> acc == digits_value(d@.take(i as int)) && acc <= max,
            over ==> digits_value(d@.take(i as int)) > max,
        decreases d.len() - i,
    {
        let digit = match digit_of(d[i]) {
            Some(x) => x,
            None => {
                assert(!is_digit(d@[i as int]));
                return Reading::NotDigits;
            },
        };
        proof {
            assert(d@.take(i + 1).drop_last() =~= d@.take(i as int));
            assert(d@.take(i + 1).last() == d@[i as int]);
            assert forall|j: int| 0 <= j < i + 1 implies is_digit(#[trigger] d@.take(i + 1)[j]) by {
                if j < i {
                    assert(d@.take(i as int)[j] == d@[j]);
                }
            }
        }
        if !over {
            let next: u128 = acc as u128 * 10 + digit as u128;
            if next > max as u128 {
                over = true;
            } else {
                acc = next as u64;
            }
        }
        i += 1;
    }
    proof {
        assert(d@.take(i as int) =~= d@);
    }
    if over {
        Reading::Above
    } else {
        Reading::Exact(acc)
    }
}

/// The window of `v` behind one leading plus sign.
pub fn skip_plus(v: &[char]) -> (d: &[char])
    ensures
        d@ == unsigned_body(v@),
{
    let start: usize = if v.len() > 0 && v[0] == '+' {
        1
    } else {
        0
    };
    let d = slice_subrange(v, start, v.len());
    assert(d@ =~= unsigned_body(v@));
    d
}

/// The number written in `v`, when it is at most `max`.
pub fn parse_bounded(v: &[char], max: u64) -> (r: Option<u64>)
    ensures
        r == match parse_nat(v@) {
            Some(n) => if n <= max {
                Some(n as u64)
            } else {
                None
            },
            None => None,
        },
{
    let d = skip_plus(v);
    if d.len() == 0 {
        return None;
    }
    match read_digits(d, max) {
        Reading::Exact(n) => Some(n),
        _ => None,
    }
}

/// Whether `v` holds exactly the characters of `lit`.
pub fn same_chars(v: &[char], lit: &str) -> (r: bool)
    ensures
        r == (v@ == lit@),
{
    let mut i: usize = 0;
    for c in it: lit.chars()
        invariant
            it.seq() == lit@,
            i == it.index(),
            i <= v.len(),
            v@.take(i as int) == lit@.take(i as int),
    {
        if i >= v.len() || v[i] != c {
            assert(v@ != lit@) by {
                if v@ == lit@ {
                    assert(v@[i as int] == lit@[i as int]);
                }
            }
            return false;
        }
        proof {
            assert(v@.take(i + 1) =~= v@.take(i as int).push(v@[i as int]));
            assert(lit@.take(i + 1) =~= lit@.take(i as int).push(lit@[i as int]));
        }
        i += 1;
    }
    proof {
        assert(lit@.take(i as int) =~= lit@);
        if i == v.len() {
            assert(v@.take(i as int) =~= v@);
        }
    }
    i == v.len()
}

/// Whether two runs of characters are the same.
pub fn same(a: &[char], b: &[char]) -> (r: bool)
    ensures
        r == (a@ == b@),
{
    if a.len() != b.len() {
        return false;
    }
    let mut i: usize = 0;
    while i < a.len()
        invariant
            i <= a.len(),
            a.len() == b.len(),
            forall|j: int| 0 <= j < i ==> a@[j] == b@[j],
        decreases a.len() - i,
    {
        if a[i] != b[i] {
            return false;
        }
        i += 1;
    }
    assert(a@ =~= b@);
    true
}

/// Whether `v` begins with `p`.
pub fn starts_with(v: &[char], p: &[char]) -> (r: bool)
    ensures
        r == p@.is_prefix_of(v@),
{
    p.len() <= v.len() && same(slice_subrange(v, 0, p.len()), p)
}

/// Whether `v` ends with `p`.
pub fn ends_with(v: &[char], p: &[char]) -> (r: bool)
    ensures
        r == p@.is_suffix_of(v@),
{
    p.len() <= v.len() && same(slice_subrange(v, v.len() - p.len(), v.len()), p)
}

/// Whether `pat` stands somewhere in `s`.
pub open spec fn occurs(pat: Seq<char>, s: Seq<char>) -> bool {
    exists|i: int| 0 <= i && i + pat.len() <= s.len() && #[trigger] s.subrange(i, i + pat.len()) == pat
}

/// Whether `pat` stands somewhere in `v`.
pub fn contains(v: &[char], pat: &[char]) -> (r: bool)
    ensures
        r == occurs(pat@, v@),
{
    if pat.len() > v.len() {
        return false;
    }
    let last: usize = v.len() - pat.len();
    let mut i: usize = 0;
    loop
        invariant
            i <= last,
            last == v.len() - pat.len(),
            forall|j: int| 0 <= j < i ==> #[trigger] v@.subrange(j, j + pat.len()) != pat@,
        decreases last - i,
    {
        if same(slice_subrange(v, i, i + pat.len()), pat) {
            return true;
        }
        if i == last {
            return false;
        }
        i += 1;
    }
}

/// The characters of each run of a list.
pub open spec fn runs_view(v: Seq<Vec<char>>) -> Seq<Seq<char>> {
    v.map_values(|l: Vec<char>| l@)
}

/// The parts of a list put together, with `sep` between each two.
pub open spec fn joined(parts: Seq<Seq<char>>, sep: Seq<char>) -> Seq<char>
    decreases parts.len(),
{
    if parts.len() == 0 {
        Seq::empty()
    } else if parts.len() == 1 {
        parts[0]
    } else {
        joined(parts.drop_last(), sep) + sep + parts.last()
    }
}

fn extend(acc: &mut Vec<char>, more: &[char])
    ensures
        final(acc)@ == old(acc)@ + more@,
{
    let mut i: usize = 0;
    while i < more.len()
        invariant
            i <= more.len(),
            acc@ == old(acc)@ + more@.take(i as int),
        decreases more.len() - i,
    {
        acc.push(more[i]);
        proof {
            assert(more@.take(i + 1) =~= more@.take(i as int).push(more@[i as int]));
        }
        i += 1;
    }
    proof {
        assert(more@.take(i as int) =~= more@);
    }
}

/// The runs of `parts` put together, with `sep` between each two.
pub fn join(parts: &[Vec<char>], sep: &[char]) -> (r: Vec<char>)
    ensures
        r@ == joined(runs_view(parts@), sep@),
{
    let ghost all = runs_view(parts@);
    let mut r: Vec<char> = Vec::new();
    let mut i: usize = 0;
    proof {
        assert(all.take(0) =~= Seq::<Seq<char>>::empty());
    }
    while i < parts.len()
        invariant
            i <= parts.len(),
            all == runs_view(parts@),
            r@ == joined(all.take(i as int), sep@),
        decreases parts.len() - i,
    {
        proof {
            assert(all.take(i + 1).drop_last() =~= all.take(i as int));
            assert(all.take(i + 1).last() == parts@[i as int]@);
        }
        if i > 0 {
            extend(&mut r, sep);
        }
        extend(&mut r, parts[i].as_slice());
        proof {
            if i == 0 {
                assert(r@ =~= parts@[i as int]@);
            }
        }
        i += 1;
    }
    proof {
        assert(all.take(i as int) =~= all);
    }
    r
}

/// The characters of the strings of a list, one after another.
pub open spec fn glued(nodes: Seq<Seq<char>>) -> Seq<char>
    decreases nodes.len(),
{
    if nodes.len() == 0 {
        Seq::empty()
    } else {
        glued(nodes.drop_last()) + nodes.last()
    }
}

/// `s` without one trailing carriage return.
pub open spec fn without_cr(s: Seq<char>) -> Seq<char> {
    if s.len() > 0 && s.last() == '\r' {
        s.drop_last()
    } else {
        s
    }
}

/// A text has at least one piece.
pub proof fn lemma_split_on_len(s: Seq<char>, sep: char)
    ensures
        split_on(s, sep).len() >= 1,
    decreases s.len(),
{
    let k = first_index(s, sep);
    if 0 <= k < s.len() {
        lemma_split_on_len(s.skip(k + 1), sep);
    }
}

/// The lines of `s`, as `str::lines` parts a text: a line ends at each line
/// feed, a carriage return just before that line feed belongs to the line
/// ending, and what follows the last line feed is a line unless it is
/// empty.
pub open spec fn lines_of(s: Seq<char>) -> Seq<Seq<char>> {
    let p = split_on(s, '\n');
    let k = p.len() - 1;
    Seq::new(
        (if p[k].len() == 0 {
            k
        } else {
            k + 1
        }) as nat,
        |i: int|
            if i < k {
                without_cr(p[i])
            } else {
                p[i]
            },
    )
}

/// The lines of `v`.
pub fn lines(v: &[char]) -> (r: Vec<Vec<char>>)
    ensures
        runs_view(r@) == lines_of(v@),
{
    let pieces = split(v, '\n');
    proof {
        lemma_split_on_len(v@, '\n');
    }
    let ghost p = split_on(v@, '\n');
    let k: usize = pieces.len() - 1;
    let mut r: Vec<Vec<char>> = Vec::new();
    let mut i: usize = 0;
    while i < k
        invariant
            i <= k,
            k == pieces.len() - 1,
            pieces@.map_values(|q: &[char]| q@) == p,
            r.len() == i,
            forall|j: int| 0 <= j < i ==> (#[trigger] r@[j])@ == without_cr(p[j]),
        decreases k - i,
    {
        let piece: &[char] = pieces[i];
        assert(piece@ == p[i as int]);
        let line = if piece.len() > 0 && piece[piece.len() - 1] == '\r' {
            let cut = slice_subrange(piece, 0, piece.len() - 1);
            assert(cut@ =~= piece@.drop_last());
            cut
        } else {
            piece
        };
        r.push(slice_to_vec(line));
        i += 1;
    }
    let tail: &[char] = pieces[k];
    assert(tail@ == p[k as int]);
    if tail.len() > 0 {
        r.push(slice_to_vec(tail));
    }
    proof {
        assert(runs_view(r@) =~= lines_of(v@));
    }
    r
}

/// The character that writes the digit `d`.
pub open spec fn digit_char(d: nat) -> char {
    if d == 0 {
        '0'
    } else if d == 1 {
        '1'
    } else if d == 2 {
        '2'
    } else if d == 3 {
        '3'
    } else if d == 4 {
        '4'
    } else if d == 5 {
        '5'
    } else if d == 6 {
        '6'
    } else if d == 7 {
        '7'
    } else if d == 8 {
        '8'
    } else {
        '9'
    }
}

/// The decimal digits that write `n`, without leading zeros.
pub open spec fn decimal(n: nat) -> Seq<char>
    decreases n,
{
    if n < 10 {
        seq![digit_char(n)]
    } else {
        decimal(n / 10).push(digit_char(n % 10))
    }
}

fn char_of_digit(d: u64) -> (c: char)
    requires
        d < 10,
    ensures
        c == digit_char(d as nat),
{
    if d == 0 {
        '0'
    } else if d == 1 {
        '1'
    } else if d == 2 {
        '2'
    } else if d == 3 {
        '3'
    } else if d == 4 {
        '4'
    } else if d == 5 {
        '5'
    } else if d == 6 {
        '6'
    } else if d == 7 {
        '7'
    } else if d == 8 {
        '8'
    } else {
        '9'
    }
}

/// Writes `n` in decimal digits.
pub fn decimal_of(n: u64) -> (v: Vec<char>)
    ensures
        v@ == decimal(n as nat),
    decreases n,
{
    if n < 10 {
        let mut v: Vec<char> = Vec::new();
        v.push(char_of_digit(n));
        assert(v@ =~= seq![digit_char(n as nat)]);
        v
    } else {
        let mut v = decimal_of(n / 10);
        v.push(char_of_digit(n % 10));
        v
    }
}

/// What was written in decimal digits reads back as the same number.
pub proof fn lemma_decimal_reads_back(n: nat)
    ensures
        parse_nat(decimal(n)) == Some(n),
        all_digits(decimal(n)),
        digits_value(decimal(n)) == n,
        decimal(n).len() > 0,
    decreases n,
{
    let d = decimal(n);
    if n < 10 {
        assert(d.drop_last() =~= Seq::<char>::empty());
        assert(digits_value(d.drop_last()) == 0);
        assert(d.last() == digit_char(n));
    } else {
        lemma_decimal_reads_back(n / 10);
        assert(d.drop_last() =~= decimal(n / 10));
        assert(d.last() == digit_char(n % 10));
        assert forall|i: int| 0 <= i < d.len() implies is_digit(#[trigger] d[i]) by {
            if i < d.len() - 1 {
                assert(d[i] == decimal(n / 10)[i]);
            }
        }
    }
    assert(d[0] != '+');
    assert(unsigned_body(d) == d);
}

/// `prefix`, then `n` in decimal digits, then `suffix`.
pub open spec fn numbered(prefix: Seq<char>, n: nat, suffix: Seq<char>) -> Seq<char> {
    prefix + decimal(n) + suffix
}

/// A text made of `prefix`, the number `n` and `suffix`.
pub fn number_between(prefix: &str, n: u64, suffix: &str) -> (r: String)
    ensures
        r@ == numbered(prefix@, n as nat, suffix@),
{
    let digits = string_of(decimal_of(n).as_slice());
    let mut r = String::from_str(prefix);
    r.append(digits.as_str());
    r.append(suffix);
    r
}

} // verus!
