//! Heuristic type inference shared by all three extractors.
//!
//! A trimmed token is classified, first match wins: empty, boolean word,
//! 64-bit signed integer, 64-bit float syntax, date-like shape, plain string.

use vstd::prelude::*;
use crate::chars::{
    spec_trim, spec_lower, trim_chars, lower_chars, eq_str, from_chars, to_chars,
};
use crate::types::{FieldValue, ValueModel};

verus! {

pub open spec fn is_digit(c: char) -> bool {
    48 <= c as u32 && c as u32 <= 57
}

pub open spec fn digit_val(c: char) -> nat {
    (c as u32 - 48) as nat
}

pub fn is_digit_ch(c: char) -> (b: bool)
    ensures
        b == is_digit(c),
{
    let u = c as u32;
    48 <= u && u <= 57
}

pub open spec fn all_digits(s: Seq<char>) -> bool {
    forall|i: int| 0 <= i < s.len() ==> is_digit(#[trigger] s[i])
}

/// Value of a digit string, most significant digit first.
pub open spec fn digits_val(s: Seq<char>) -> nat
    decreases s.len(),
{
    if s.len() == 0 {
        0
    } else {
        digits_val(s.drop_last()) * 10 + digit_val(s.last())
    }
}

pub(crate) proof fn lemma_digits_val_mono(s: Seq<char>, i: int)
    requires
        0 <= i <= s.len(),
    ensures
        digits_val(s.take(i)) <= digits_val(s),
    decreases s.len() - i,
{
    if i < s.len() {
        lemma_digits_val_mono(s, i + 1);
        assert(s.take(i + 1).drop_last() =~= s.take(i));
        assert(digits_val(s.take(i)) <= digits_val(s.take(i + 1)));
    } else {
        assert(s.take(i) =~= s);
    }
}

/// What `str::parse::<i64>` accepts of a token: an optional sign followed by
/// one or more decimal digits, with the value in the 64-bit signed range.
pub open spec fn spec_parse_i64(t: Seq<char>) -> Option<int> {
    let neg = t.len() > 0 && t[0] == '-';
    let ds = if t.len() > 0 && (t[0] == '+' || t[0] == '-') {
        t.drop_first()
    } else {
        t
    };
    if ds.len() == 0 || !all_digits(ds) {
        Option::None
    } else if neg {
        if digits_val(ds) <= 0x8000_0000_0000_0000 {
            Option::Some(-(digits_val(ds) as int))
        } else {
            Option::None
        }
    } else {
        if digits_val(ds) <= 0x7fff_ffff_ffff_ffff {
            Option::Some(digits_val(ds) as int)
        } else {
            Option::None
        }
    }
}

/// Parses a token as a 64-bit signed integer; `None` exactly when
/// `spec_parse_i64` gives none.
pub fn parse_i64_chars(t: &Vec<char>) -> (r: Option<i64>)
    ensures
        r is Some <==> spec_parse_i64(t@) is Some,
        r is Some ==> r->0 as int == spec_parse_i64(t@)->0,
{
    let n = t.len();
    if n == 0 {
        return Option::None;
    }
    let c0 = t[0];
    let neg = c0 == '-';
    let start: usize = if c0 == '-' || c0 == '+' {
        1
    } else {
        0
    };
    let ghost ds = if t@.len() > 0 && (t@[0] == '+' || t@[0] == '-') {
        t@.drop_first()
    } else {
        t@
    };
    proof {
        assert(ds =~= t@.skip(start as int));
    }
    if start == n {
        return Option::None;
    }
    let limit: u64 = if neg {
        0x8000_0000_0000_0000
    } else {
        0x7fff_ffff_ffff_ffff
    };
    let mut acc: u64 = 0;
    let mut i: usize = start;
    while i < n
        invariant
            start <= i <= n,
            n == t@.len(),
            start < n,
            neg == (t@[0] == '-'),
            start == if t@[0] == '+' || t@[0] == '-' {
                1int
            } else {
                0int
            },
            ds == if t@.len() > 0 && (t@[0] == '+' || t@[0] == '-') {
                t@.drop_first()
            } else {
                t@
            },
            ds == t@.skip(start as int),
            ds.len() == n - start,
            forall|j: int| 0 <= j < ds.len() ==> ds[j] == t@[start + j],
            all_digits(ds.take(i - start)),
            acc == digits_val(ds.take(i - start)),
            acc <= limit,
            limit == if neg {
                0x8000_0000_0000_0000u64
            } else {
                0x7fff_ffff_ffff_ffffu64
            },
        decreases n - i,
    {
        let c = t[i];
        let u = c as u32;
        if !(48 <= u && u <= 57) {
            proof {
                assert(ds[i - start] == t@[i as int]);
                assert(!is_digit(ds[i - start]));
                assert(!all_digits(ds));
            }
            return Option::None;
        }
        let d: u64 = (u - 48) as u64;
        let ghost pre = ds.take(i - start);
        proof {
            assert(ds.take(i - start + 1).drop_last() =~= pre);
            assert(ds.take(i - start + 1).last() == ds[i - start]);
            assert(digits_val(ds.take(i - start + 1)) == digits_val(pre) * 10 + digit_val(
                ds[i - start],
            ));
        }
        if acc > (limit - d) / 10 {
            proof {
                let q = ((limit - d) / 10) as int;
                let r = ((limit - d) % 10) as int;
                assert(limit - d == 10 * q + r && 0 <= r < 10) by (nonlinear_arith)
                    requires
                        q == ((limit - d) as int) / 10,
                        r == ((limit - d) as int) % 10,
                        d <= limit,
                ;
                assert(acc * 10 >= (q + 1) * 10) by (nonlinear_arith)
                    requires
                        acc >= q + 1,
                ;
                assert(digits_val(ds.take(i - start + 1)) > limit);
                lemma_digits_val_mono(ds, i - start + 1);
                assert(digits_val(ds) > limit);
            }
            return Option::None;
        }
        proof {
            let q = ((limit - d) / 10) as int;
            let r = ((limit - d) % 10) as int;
            assert(limit - d == 10 * q + r && 0 <= r < 10) by (nonlinear_arith)
                requires
                    q == ((limit - d) as int) / 10,
                    r == ((limit - d) as int) % 10,
                    d <= limit,
            ;
            assert(acc * 10 <= q * 10) by (nonlinear_arith)
                requires
                    acc <= q,
            ;
            assert(acc * 10 + d <= limit);
        }
        acc = acc * 10 + d;
        i = i + 1;
    }
    proof {
        assert(ds.take(n - start) =~= ds);
    }
    if neg {
        if acc == 0x8000_0000_0000_0000 {
            Option::Some(i64::MIN)
        } else {
            Option::Some(-(acc as i64))
        }
    } else {
        Option::Some(acc as i64)
    }
}

// ------------------------------------------------------------------
// 64-bit float syntax.
// ------------------------------------------------------------------

/// A mantissa: `D+`, `D+ . D*`, or `. D+`.
pub open spec fn spec_is_mantissa(m: Seq<char>) -> bool {
    (m.len() > 0 && all_digits(m)) || (exists|j: int|
        0 <= j < m.len() && m[j] == '.' && all_digits(m.take(j)) && all_digits(m.skip(j + 1)) && (
        j > 0 || m.len() > j + 1))
}

/// An exponent body: an optional sign followed by one or more digits.
pub open spec fn spec_is_exp(x: Seq<char>) -> bool {
    let d = if x.len() > 0 && (x[0] == '+' || x[0] == '-') {
        x.drop_first()
    } else {
        x
    };
    d.len() > 0 && all_digits(d)
}

/// What `str::parse::<f64>` accepts: an optional sign, then `inf`,
/// `infinity` or `nan` in any letter case, or a mantissa with an optional
/// `e`/`E` exponent.
pub open spec fn spec_is_float(t: Seq<char>) -> bool {
    let r = if t.len() > 0 && (t[0] == '+' || t[0] == '-') {
        t.drop_first()
    } else {
        t
    };
    ||| spec_lower(r) == "inf"@
    ||| spec_lower(r) == "infinity"@
    ||| spec_lower(r) == "nan"@
    ||| spec_is_number(r)
}

pub open spec fn spec_is_number(r: Seq<char>) -> bool {
    ||| spec_is_mantissa(r)
    ||| (exists|i: int|
        0 <= i < r.len() && (r[i] == 'e' || r[i] == 'E') && spec_is_mantissa(r.take(i))
            && spec_is_exp(r.skip(i + 1)))
}

proof fn lemma_mantissa_chars(m: Seq<char>, l: int)
    requires
        spec_is_mantissa(m),
        0 <= l < m.len(),
    ensures
        is_digit(m[l]) || m[l] == '.',
{
    if m.len() > 0 && all_digits(m) {
    } else {
        let j = choose|j: int|
            0 <= j < m.len() && m[j] == '.' && all_digits(m.take(j)) && all_digits(
                m.skip(j + 1),
            ) && (j > 0 || m.len() > j + 1);
        if l < j {
            assert(is_digit(m.take(j)[l]));
        } else if l > j {
            assert(is_digit(m.skip(j + 1)[l - j - 1]));
        }
    }
}

/// Checks the mantissa shape over `v[lo..hi]`.
fn is_mantissa_range(v: &Vec<char>, lo: usize, hi: usize) -> (b: bool)
    requires
        lo <= hi <= v@.len(),
    ensures
        b == spec_is_mantissa(v@.subrange(lo as int, hi as int)),
{
    let ghost m = v@.subrange(lo as int, hi as int);
    let mut i: usize = lo;
    // scan the digits before a possible dot
    while i < hi && is_digit_ch(v[i])
        invariant
            lo <= i <= hi <= v@.len(),
            m == v@.subrange(lo as int, hi as int),
            forall|l: int| 0 <= l < i - lo ==> is_digit(#[trigger] m[l]),
        decreases hi - i,
    {
        i = i + 1;
    }
    if i == hi {
        // all digits; a mantissa exactly when non-empty
        proof {
            if hi > lo {
                assert(spec_is_mantissa(m));
            } else {
                assert(m.len() == 0);
                if spec_is_mantissa(m) {
                    assert(false);
                }
            }
        }
        return hi > lo;
    }
    if v[i] != '.' {
        // a character that is neither digit nor dot: no witness can work
        proof {
            assert(!is_digit(m[i - lo]) && m[i - lo] != '.');
            if spec_is_mantissa(m) {
                lemma_mantissa_chars(m, i - lo);
            }
        }
        return false;
    }
    let ghost q = i - lo;
    // digits after the dot
    let mut k: usize = i + 1;
    while k < hi && is_digit_ch(v[k])
        invariant
            lo <= i < hi <= v@.len(),
            i + 1 <= k <= hi,
            m == v@.subrange(lo as int, hi as int),
            q == i - lo,
            m[q] == '.',
            forall|l: int| 0 <= l < q ==> is_digit(#[trigger] m[l]),
            forall|l: int| q < l < k - lo ==> is_digit(#[trigger] m[l]),
        decreases hi - k,
    {
        k = k + 1;
    }
    if k < hi {
        // a non-digit after the dot: the only candidate dot is at q, and its
        // tail is not all digits; an earlier dot would sit among digits
        proof {
            assert(!is_digit(m[k - lo]));
            if spec_is_mantissa(m) {
                if m.len() > 0 && all_digits(m) {
                    assert(is_digit(m[q]));
                    assert(false);
                } else {
                    let j = choose|j: int|
                        0 <= j < m.len() && m[j] == '.' && all_digits(m.take(j)) && all_digits(
                            m.skip(j + 1),
                        ) && (j > 0 || m.len() > j + 1);
                    if j < q {
                        assert(is_digit(m[j]));
                        assert(false);
                    } else if j > q {
                        assert(is_digit(m.take(j)[q]));
                        assert(false);
                    } else {
                        assert(is_digit(m.skip(q + 1)[k - lo - q - 1]));
                        assert(false);
                    }
                }
            }
        }
        return false;
    }
    // m is D* '.' D*; a mantissa when some digit exists on either side
    let ok = i > lo || hi > i + 1;
    proof {
        if ok {
            assert(m.take(q) =~= m.take(q));
            assert(forall|l: int| 0 <= l < q ==> is_digit(#[trigger] m.take(q)[l]));
            assert(forall|l: int|
                0 <= l < m.len() - q - 1 ==> is_digit(#[trigger] m.skip(q + 1)[l]));
            assert(spec_is_mantissa(m));
        } else {
            assert(m.len() == 1 && m[0] == '.');
            if spec_is_mantissa(m) {
                if m.len() > 0 && all_digits(m) {
                    assert(false);
                } else {
                    let j = choose|j: int|
                        0 <= j < m.len() && m[j] == '.' && all_digits(m.take(j)) && all_digits(
                            m.skip(j + 1),
                        ) && (j > 0 || m.len() > j + 1);
                    assert(j == 0);
                    assert(false);
                }
            }
        }
    }
    ok
}

/// Checks the exponent shape over `v[lo..hi]`.
fn is_exp_range(v: &Vec<char>, lo: usize, hi: usize) -> (b: bool)
    requires
        lo <= hi <= v@.len(),
    ensures
        b == spec_is_exp(v@.subrange(lo as int, hi as int)),
{
    let ghost x = v@.subrange(lo as int, hi as int);
    let mut i: usize = lo;
    if i < hi && (v[i] == '+' || v[i] == '-') {
        i = i + 1;
    }
    let ghost d = if x.len() > 0 && (x[0] == '+' || x[0] == '-') {
        x.drop_first()
    } else {
        x
    };
    proof {
        assert(d =~= v@.subrange(lo + (i - lo), hi as int));
    }
    if i == hi {
        proof {
            assert(d.len() == 0);
        }
        return false;
    }
    let mut k: usize = i;
    while k < hi && is_digit_ch(v[k])
        invariant
            lo <= i <= k <= hi <= v@.len(),
            d == v@.subrange(i as int, hi as int),
            forall|l: int| 0 <= l < k - i ==> is_digit(#[trigger] d[l]),
        decreases hi - k,
    {
        k = k + 1;
    }
    if k < hi {
        proof {
            assert(!is_digit(d[k - i]));
        }
        return false;
    }
    proof {
        assert(all_digits(d));
    }
    true
}

/// Checks the full 64-bit float syntax of a token.
pub fn is_float_chars(t: &Vec<char>) -> (b: bool)
    ensures
        b == spec_is_float(t@),
{
    let n = t.len();
    let start: usize = if n > 0 && (t[0] == '+' || t[0] == '-') {
        1
    } else {
        0
    };
    let ghost r = if t@.len() > 0 && (t@[0] == '+' || t@[0] == '-') {
        t@.drop_first()
    } else {
        t@
    };
    proof {
        assert(r =~= t@.subrange(start as int, n as int));
    }
    // the word forms, in any letter case
    let mut word: Vec<char> = Vec::new();
    let mut i: usize = start;
    while i < n
        invariant
            start <= i <= n,
            n == t@.len(),
            r == t@.subrange(start as int, n as int),
            word@.len() == i - start,
            forall|l: int| 0 <= l < i - start ==> word@[l] == crate::chars::lower_char(r[l]),
        decreases n - i,
    {
        let c = t[i];
        let u = c as u32;
        if 65 <= u && u <= 90 {
            word.push(((u + 32) as u8) as char);
        } else {
            word.push(c);
        }
        i = i + 1;
    }
    proof {
        assert(word@ =~= spec_lower(r));
    }
    if eq_str(&word, "inf") || eq_str(&word, "infinity") || eq_str(&word, "nan") {
        return true;
    }
    // find the first exponent marker
    let mut p: usize = start;
    while p < n && t[p] != 'e' && t[p] != 'E'
        invariant
            start <= p <= n,
            n == t@.len(),
            r == t@.subrange(start as int, n as int),
            forall|l: int| 0 <= l < p - start ==> r[l] != 'e' && r[l] != 'E',
        decreases n - p,
    {
        p = p + 1;
    }
    if p == n {
        // no exponent marker anywhere
        let b = is_mantissa_range(t, start, n);
        proof {
            assert(forall|l: int| 0 <= l < r.len() ==> r[l] != 'e' && r[l] != 'E');
            assert(!(exists|i2: int|
                0 <= i2 < r.len() && (r[i2] == 'e' || r[i2] == 'E') && spec_is_mantissa(
                    r.take(i2),
                ) && spec_is_exp(r.skip(i2 + 1))));
        }
        return b;
    }
    let b1 = is_mantissa_range(t, start, p);
    let b2 = is_exp_range(t, p + 1, n);
    proof {
        let pi = p - start;
        assert(r[pi] == 'e' || r[pi] == 'E');
        assert(r.take(pi) =~= t@.subrange(start as int, p as int));
        assert(r.skip(pi + 1) =~= t@.subrange(p + 1, n as int));
        if b1 && b2 {
            assert(spec_is_number(r));
        } else {
            // a mantissa holds digits and dots only, so no later marker can
            // head a valid split, and earlier positions are not markers
            assert forall|i2: int|
                0 <= i2 < r.len() && (r[i2] == 'e' || r[i2] == 'E') implies !(spec_is_mantissa(
                r.take(i2),
            ) && spec_is_exp(r.skip(i2 + 1))) by {
                if i2 < pi {
                    assert(r[i2] != 'e' && r[i2] != 'E');
                } else if i2 == pi {
                    assert(!(b1 && b2));
                    assert(!(spec_is_mantissa(r.take(pi)) && spec_is_exp(r.skip(pi + 1))));
                } else {
                    if spec_is_mantissa(r.take(i2)) {
                        lemma_mantissa_chars(r.take(i2), pi);
                        assert(is_digit(r[pi]) || r[pi] == '.');
                        assert(false);
                    }
                }
            }
            if spec_is_mantissa(r) {
                lemma_mantissa_chars(r, pi);
                assert(false);
            }
        }
    }
    b1 && b2
}

// ------------------------------------------------------------------
// Date-like shapes.
// ------------------------------------------------------------------

/// Digit groups of widths `p1`/`p2`/`p3` joined by `s1` and `s2`.
pub open spec fn spec_date_shape(t: Seq<char>, p1: int, s1: char, p2: int, s2: char, p3: int) -> bool {
    &&& t.len() == p1 + p2 + p3 + 2
    &&& t[p1] == s1
    &&& t[p1 + 1 + p2] == s2
    &&& (forall|i: int| 0 <= i < p1 ==> is_digit(#[trigger] t[i]))
    &&& (forall|i: int| p1 + 1 <= i < p1 + 1 + p2 ==> is_digit(#[trigger] t[i]))
    &&& (forall|i: int| p1 + p2 + 2 <= i < t.len() ==> is_digit(#[trigger] t[i]))
}

/// The three fixed date shapes the inference engine recognizes: `DDDD-DD-DD`,
/// `DD/DD/DDDD` and `DD-DD-DDDD`. A syntactic shape check, not calendar
/// validation.
pub open spec fn spec_is_date_like(t: Seq<char>) -> bool {
    ||| spec_date_shape(t, 4, '-', 2, '-', 2)
    ||| spec_date_shape(t, 2, '/', 2, '/', 4)
    ||| spec_date_shape(t, 2, '-', 2, '-', 4)
}

fn date_shape_chars(t: &Vec<char>, p1: usize, s1: char, p2: usize, s2: char, p3: usize) -> (b:
    bool)
    requires
        p1 + p2 + p3 + 2 <= usize::MAX,
    ensures
        b == spec_date_shape(t@, p1 as int, s1, p2 as int, s2, p3 as int),
{
    if t.len() != p1 + p2 + p3 + 2 {
        return false;
    }
    if t[p1] != s1 || t[p1 + 1 + p2] != s2 {
        return false;
    }
    let mut i: usize = 0;
    while i < p1
        invariant
            i <= p1,
            p1 + p2 + p3 + 2 <= usize::MAX,
            t@.len() == p1 + p2 + p3 + 2,
            forall|l: int| 0 <= l < i ==> is_digit(#[trigger] t@[l]),
        decreases p1 - i,
    {
        let u = t[i] as u32;
        if !(48 <= u && u <= 57) {
            return false;
        }
        i = i + 1;
    }
    let mut i: usize = p1 + 1;
    while i < p1 + 1 + p2
        invariant
            p1 + 1 <= i <= p1 + 1 + p2,
            p1 + p2 + p3 + 2 <= usize::MAX,
            t@.len() == p1 + p2 + p3 + 2,
            forall|l: int| 0 <= l < p1 ==> is_digit(#[trigger] t@[l]),
            forall|l: int| p1 + 1 <= l < i ==> is_digit(#[trigger] t@[l]),
        decreases p1 + 1 + p2 - i,
    {
        let u = t[i] as u32;
        if !(48 <= u && u <= 57) {
            return false;
        }
        i = i + 1;
    }
    let mut i: usize = p1 + p2 + 2;
    while i < p1 + p2 + p3 + 2
        invariant
            p1 + p2 + 2 <= i <= p1 + p2 + p3 + 2,
            p1 + p2 + p3 + 2 <= usize::MAX,
            t@.len() == p1 + p2 + p3 + 2,
            forall|l: int| 0 <= l < p1 ==> is_digit(#[trigger] t@[l]),
            forall|l: int| p1 + 1 <= l < p1 + 1 + p2 ==> is_digit(#[trigger] t@[l]),
            forall|l: int| p1 + p2 + 2 <= l < i ==> is_digit(#[trigger] t@[l]),
        decreases p1 + p2 + p3 + 2 - i,
    {
        let u = t[i] as u32;
        if !(48 <= u && u <= 57) {
            return false;
        }
        i = i + 1;
    }
    true
}

/// Checks whether a trimmed token has one of the three date shapes.
pub fn is_date_like_chars(t: &Vec<char>) -> (b: bool)
    ensures
        b == spec_is_date_like(t@),
{
    date_shape_chars(t, 4, '-', 2, '-', 2) || date_shape_chars(t, 2, '/', 2, '/', 4)
        || date_shape_chars(t, 2, '-', 2, '-', 4)
}

/// Checks whether a token looks like a date.
pub fn is_date_like(value: &str) -> (b: bool)
    ensures
        b == spec_is_date_like(value@),
{
    let v = to_chars(value);
    is_date_like_chars(&v)
}

// ------------------------------------------------------------------
// The inference routine.
// ------------------------------------------------------------------

/// The classification of a raw token: its typed value and its type tag, by
/// the fixed precedence the engine uses.
pub open spec fn spec_infer(s: Seq<char>) -> (ValueModel, Seq<char>) {
    let t = spec_trim(s);
    let lo = spec_lower(t);
    if t.len() == 0 {
        (ValueModel::VNull, "null"@)
    } else if lo == "true"@ || lo == "yes"@ || lo == "1"@ {
        (ValueModel::VBool(true), "boolean"@)
    } else if lo == "false"@ || lo == "no"@ || lo == "0"@ {
        (ValueModel::VBool(false), "boolean"@)
    } else if spec_parse_i64(t) is Some {
        (ValueModel::VInt(spec_parse_i64(t)->0), "number"@)
    } else if spec_is_float(t) {
        (ValueModel::VNum(t), "number"@)
    } else if spec_is_date_like(t) {
        (ValueModel::VStr(t), "date"@)
    } else {
        (ValueModel::VStr(t), "string"@)
    }
}

/// Infers the typed value and type tag of a token given as characters.
pub fn infer_chars(s: &Vec<char>) -> (r: (FieldValue, String))
    ensures
        r.0.model() == spec_infer(s@).0,
        r.1@ == spec_infer(s@).1,
{
    let t = trim_chars(s);
    if t.len() == 0 {
        return (FieldValue::Null, String::from_str("null"));
    }
    let lo = lower_chars(&t);
    if eq_str(&lo, "true") || eq_str(&lo, "yes") || eq_str(&lo, "1") {
        return (FieldValue::Boolean(true), String::from_str("boolean"));
    }
    if eq_str(&lo, "false") || eq_str(&lo, "no") || eq_str(&lo, "0") {
        return (FieldValue::Boolean(false), String::from_str("boolean"));
    }
    match parse_i64_chars(&t) {
        Option::Some(n) => {
            return (FieldValue::Integer(n), String::from_str("number"));
        },
        Option::None => {},
    }
    if is_float_chars(&t) {
        return (FieldValue::Number(from_chars(&t)), String::from_str("number"));
    }
    if is_date_like_chars(&t) {
        return (FieldValue::String(from_chars(&t)), String::from_str("date"));
    }
    (FieldValue::String(from_chars(&t)), String::from_str("string"))
}

/// Infers the typed value and type tag of a raw token.
pub fn infer_type(value: &str) -> (r: (FieldValue, String))
    ensures
        r.0.model() == spec_infer(value@).0,
        r.1@ == spec_infer(value@).1,
{
    let v = to_chars(value);
    infer_chars(&v)
}

} // verus!
