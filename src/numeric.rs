//! Which words read as numbers: integer words, read through std's parsers,
//! and the grammar of floating-point words.

use vstd::prelude::*;
use crate::text::line_chars;

verus! {

pub open spec fn is_digit(c: char) -> bool {
    0x30 <= c as u32 && c as u32 <= 0x39
}

pub open spec fn all_digits(s: Seq<char>) -> bool {
    forall|i: int| 0 <= i < s.len() ==> is_digit(#[trigger] s[i])
}

/// At least one decimal digit, and nothing else.
pub open spec fn digits_text(s: Seq<char>) -> bool {
    s.len() >= 1 && all_digits(s)
}

/// The value of a string of decimal digits.
pub open spec fn digits_value(s: Seq<char>) -> nat
    decreases s.len(),
{
    if s.len() == 0 {
        0
    } else {
        digits_value(s.drop_last()) * 10 + (s.last() as u32 - 0x30) as nat
    }
}

/// `s` without a leading `+` or `-`.
pub open spec fn unsigned_part(s: Seq<char>) -> Seq<char> {
    if s.len() > 0 && (s[0] == '+' || s[0] == '-') {
        s.drop_first()
    } else {
        s
    }
}

/// An optional sign followed by at least one digit.
pub open spec fn signed_int_text(s: Seq<char>) -> bool {
    digits_text(unsigned_part(s))
}

/// The value that `signed_int_text` denotes.
pub open spec fn signed_int_value(s: Seq<char>) -> int {
    if s.len() > 0 && s[0] == '-' {
        -digits_value(unsigned_part(s))
    } else {
        digits_value(unsigned_part(s)) as int
    }
}

/// An optional `+` followed by at least one digit.
pub open spec fn unsigned_int_text(s: Seq<char>) -> bool {
    if s.len() > 0 && s[0] == '+' {
        digits_text(s.drop_first())
    } else {
        digits_text(s)
    }
}

/// The value that `unsigned_int_text` denotes.
pub open spec fn unsigned_int_value(s: Seq<char>) -> nat {
    digits_value(unsigned_part(s))
}

/// The word reads as an `i64`, with that value.
pub open spec fn i64_word(s: Seq<char>, v: i64) -> bool {
    signed_int_text(s) && signed_int_value(s) == v as int
}

/// The word reads as some `i64`.
pub open spec fn is_i64_word(s: Seq<char>) -> bool {
    signed_int_text(s) && i64::MIN <= signed_int_value(s) <= i64::MAX
}

/// The word reads as some `u64`.
pub open spec fn is_u64_word(s: Seq<char>) -> bool {
    unsigned_int_text(s) && unsigned_int_value(s) <= u64::MAX
}

/// Relies on `i64`'s `FromStr`: an optional `+` or `-` and then only decimal
/// digits, with a value in range, is accepted; anything else is an error.
#[verifier::external_body]
pub(crate) fn parse_i64(s: &str) -> (r: Option<i64>)
    ensures
        r is Some <==> is_i64_word(s@),
        r is Some ==> r->0 as int == signed_int_value(s@),
{
    s.parse::<i64>().ok()
}

/// Relies on `u64`'s `FromStr`: an optional `+` and then only decimal
/// digits, with a value in range, is accepted; anything else is an error.
#[verifier::external_body]
pub(crate) fn parse_u64(s: &str) -> (r: Option<u64>)
    ensures
        r is Some <==> is_u64_word(s@),
        r is Some ==> r->0 as int == unsigned_int_value(s@),
{
    s.parse::<u64>().ok()
}

/// Number of decimal digits that `s` starts with.
pub open spec fn digit_run(s: Seq<char>) -> nat
    decreases s.len(),
{
    if s.len() == 0 || !is_digit(s[0]) {
        0
    } else {
        1 + digit_run(s.drop_first())
    }
}

/// `s` spells the lower-case ASCII word `w`, each letter in either case.
pub open spec fn spells(s: Seq<char>, w: Seq<char>) -> bool {
    s.len() == w.len() && forall|i: int|
        0 <= i < s.len() ==> s[i] == w[i] || (s[i] as u32) + 32 == #[trigger] (w[i] as u32)
}

/// An exponent: `e` or `E`, an optional sign, at least one digit.
pub open spec fn exponent_text(s: Seq<char>) -> bool {
    s.len() > 0 && (s[0] == 'e' || s[0] == 'E') && digits_text(unsigned_part(s.drop_first()))
}

/// A decimal number: digits with an optional point, at least one digit on
/// either side of it, then an optional exponent.
pub open spec fn number_text(s: Seq<char>) -> bool {
    let a = digit_run(s) as int;
    let t = s.skip(a);
    if t.len() > 0 && t[0] == '.' {
        let u = t.drop_first();
        let b = digit_run(u) as int;
        a + b >= 1 && (b == u.len() || exponent_text(u.skip(b)))
    } else {
        a >= 1 && (a == s.len() || exponent_text(t))
    }
}

/// A word that `f64`'s `FromStr` accepts: an optional sign, then `inf`,
/// `infinity` or `nan` in any case, or a decimal number.
pub open spec fn float_text(s: Seq<char>) -> bool {
    let b = unsigned_part(s);
    spells(b, seq!['i', 'n', 'f']) || spells(b, seq!['i', 'n', 'f', 'i', 'n', 'i', 't', 'y'])
        || spells(b, seq!['n', 'a', 'n']) || number_text(b)
}

fn digit(c: char) -> (r: bool)
    ensures
        r == is_digit(c),
{
    0x30 <= c as u32 && c as u32 <= 0x39
}

proof fn lemma_digit_run(s: Seq<char>, n: int)
    requires
        0 <= n <= s.len(),
        forall|k: int| 0 <= k < n ==> is_digit(#[trigger] s[k]),
        n == s.len() || !is_digit(s[n]),
    ensures
        digit_run(s) == n,
    decreases n,
{
    if n > 0 {
        let t = s.drop_first();
        assert forall|k: int| 0 <= k < n - 1 implies is_digit(#[trigger] t[k]) by {
            assert(t[k] == s[k + 1]);
        }
        if n < s.len() {
            assert(t[n - 1] == s[n]);
        }
        lemma_digit_run(t, n - 1);
    }
}

/// End of the run of digits that starts at `from`.
fn digits_end(cs: &Vec<char>, from: usize) -> (j: usize)
    requires
        from <= cs.len(),
    ensures
        from <= j <= cs.len(),
        digit_run(cs@.skip(from as int)) == j - from,
        forall|k: int| from <= k < j ==> is_digit(#[trigger] cs@[k]),
        j < cs.len() ==> !is_digit(cs@[j as int]),
{
    let mut j: usize = from;
    while j < cs.len() && digit(cs[j])
        invariant
            from <= j <= cs.len(),
            forall|k: int| from <= k < j ==> is_digit(#[trigger] cs@[k]),
        decreases cs.len() - j,
    {
        j += 1;
    }
    let ghost t = cs@.skip(from as int);
    proof {
        assert forall|k: int| 0 <= k < j - from implies is_digit(#[trigger] t[k]) by {
            assert(t[k] == cs@[from + k]);
        }
        if j < cs.len() {
            assert(t[j - from] == cs@[j as int]);
        }
        lemma_digit_run(t, j - from);
    }
    j
}

/// Whether the characters from `from` on spell `w`, in either case.
fn spells_at(cs: &Vec<char>, from: usize, w: &Vec<char>) -> (r: bool)
    requires
        from <= cs.len(),
        forall|i: int| 0 <= i < w.len() ==> 0x61 <= #[trigger] (w@[i] as u32) <= 0x7A,
    ensures
        r == spells(cs@.skip(from as int), w@),
{
    let ghost s = cs@.skip(from as int);
    if cs.len() - from != w.len() {
        return false;
    }
    let mut i: usize = 0;
    while i < w.len()
        invariant
            from <= cs.len(),
            cs.len() - from == w.len(),
            s == cs@.skip(from as int),
            i <= w.len(),
            forall|k: int| 0 <= k < w.len() ==> 0x61 <= #[trigger] (w@[k] as u32) <= 0x7A,
            forall|k: int|
                0 <= k < i ==> s[k] == w@[k] || (s[k] as u32) + 32 == #[trigger] (w@[k] as u32),
        decreases w.len() - i,
    {
        let c = cs[from + i];
        assert(s[i as int] == c);
        let lc = w[i];
        if c != lc && c as u32 != lc as u32 - 32 {
            return false;
        }
        i += 1;
    }
    true
}

/// Whether the characters from `from` on form an exponent.
fn exponent_at(cs: &Vec<char>, from: usize) -> (r: bool)
    requires
        from <= cs.len(),
    ensures
        r == exponent_text(cs@.skip(from as int)),
{
    let ghost s = cs@.skip(from as int);
    if from >= cs.len() {
        return false;
    }
    assert(s[0] == cs@[from as int]);
    if cs[from] != 'e' && cs[from] != 'E' {
        return false;
    }
    let mut k: usize = from + 1;
    if k < cs.len() && (cs[k] == '+' || cs[k] == '-') {
        k += 1;
    }
    let end = digits_end(cs, k);
    proof {
        let e = s.drop_first();
        assert(e =~= cs@.skip(from + 1));
        assert(unsigned_part(e) =~= cs@.skip(k as int));
        if end == cs.len() && end > k {
            assert forall|i: int| 0 <= i < unsigned_part(e).len() implies is_digit(
                #[trigger] unsigned_part(e)[i],
            ) by {
                assert(unsigned_part(e)[i] == cs@[k + i]);
            }
        }
        if end < cs.len() {
            assert(unsigned_part(e)[end - k] == cs@[end as int]);
        }
    }
    end > k && end == cs.len()
}

/// Whether the characters from `from` on form a decimal number.
fn number_at(cs: &Vec<char>, from: usize) -> (r: bool)
    requires
        from <= cs.len(),
    ensures
        r == number_text(cs@.skip(from as int)),
{
    let ghost b = cs@.skip(from as int);
    let a = digits_end(cs, from);
    let ghost t = b.skip(a - from);
    assert(t =~= cs@.skip(a as int));
    if a < cs.len() && cs[a] == '.' {
        assert(t[0] == cs@[a as int]);
        let bb = digits_end(cs, a + 1);
        proof {
            let u = t.drop_first();
            assert(u =~= cs@.skip(a + 1));
            assert(u.skip(bb - a - 1) =~= cs@.skip(bb as int));
        }
        let exp_ok = bb == cs.len() || exponent_at(cs, bb);
        (a - from) + (bb - a - 1) >= 1 && exp_ok
    } else {
        if a < cs.len() {
            assert(t[0] == cs@[a as int]);
        }
        let exp_ok = a == cs.len() || exponent_at(cs, a);
        a - from >= 1 && exp_ok
    }
}

/// Whether a word reads as a floating-point number.
pub fn is_float_word(s: &str) -> (r: bool)
    ensures
        r == float_text(s@),
{
    let cs = line_chars(s);
    let mut from: usize = 0;
    if cs.len() > 0 && (cs[0] == '+' || cs[0] == '-') {
        from = 1;
    }
    assert(unsigned_part(s@) =~= cs@.skip(from as int));
    let inf = vec!['i', 'n', 'f'];
    let infinity = vec!['i', 'n', 'f', 'i', 'n', 'i', 't', 'y'];
    let nan = vec!['n', 'a', 'n'];
    assert(inf@ =~= seq!['i', 'n', 'f']);
    assert(infinity@ =~= seq!['i', 'n', 'f', 'i', 'n', 'i', 't', 'y']);
    assert(nan@ =~= seq!['n', 'a', 'n']);
    spells_at(&cs, from, &inf) || spells_at(&cs, from, &infinity) || spells_at(&cs, from, &nan)
        || number_at(&cs, from)
}

} // verus!
