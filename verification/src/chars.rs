//! Character-sequence utilities shared by the extractors.
//!
//! All parsing in this crate works over `Vec<char>` so that every step is
//! plain indexed access; these helpers convert between `String`/`&str` and
//! `Vec<char>` and render unsigned numbers in decimal.

use vstd::prelude::*;

verus! {

/// The decimal digit character for `d` (meaningful for `d < 10`).
pub open spec fn digit_char(d: nat) -> char {
    ((48 + d) as u8) as char
}

/// Decimal digit sequence of `n`, most significant digit first.
pub open spec fn spec_dec(n: nat) -> Seq<char>
    decreases n,
{
    if n < 10 {
        seq![digit_char(n)]
    } else {
        spec_dec(n / 10).push(digit_char(n % 10))
    }
}

/// Relies on `String::push`: appends the given character to the end of the string.
#[verifier::external_body]
pub fn push_char(s: &mut String, c: char)
    ensures
        final(s)@ == old(s)@.push(c),
{
    s.push(c)
}

/// The characters of `s`, collected into a vector.
pub fn to_chars(s: &str) -> (r: Vec<char>)
    ensures
        r@ == s@,
{
    let n = s.unicode_len();
    let mut r: Vec<char> = Vec::new();
    let mut i: usize = 0;
    while i < n
        invariant
            i <= n,
            n == s@.len(),
            r@ == s@.take(i as int),
        decreases n - i,
    {
        r.push(s.get_char(i));
        i = i + 1;
        proof {
            assert(r@ =~= s@.take(i as int));
        }
    }
    proof {
        assert(r@ =~= s@);
    }
    r
}

/// A `String` holding exactly the characters of `v`.
pub fn from_chars(v: &Vec<char>) -> (r: String)
    ensures
        r@ == v@,
{
    let mut r = String::new();
    let mut i: usize = 0;
    while i < v.len()
        invariant
            i <= v.len(),
            r@ == v@.take(i as int),
        decreases v.len() - i,
    {
        push_char(&mut r, v[i]);
        i = i + 1;
        proof {
            assert(r@ =~= v@.take(i as int));
        }
    }
    proof {
        assert(r@ =~= v@);
    }
    r
}

/// Renders `n` in decimal, most significant digit first.
pub fn dec_u64(n: u64) -> (r: String)
    ensures
        r@ == spec_dec(n as nat),
{
    let mut digits: Vec<char> = Vec::new();
    let mut m: u64 = n;
    proof {
        assert(spec_dec(n as nat) =~= spec_dec(m as nat) + digits@.reverse());
    }
    loop
        invariant_except_break
            spec_dec(n as nat) == spec_dec(m as nat) + digits@.reverse(),
        ensures
            spec_dec(n as nat) == digits@.reverse(),
        decreases m,
    {
        let ghost m0 = m as nat;
        let ghost d0 = digits@;
        let d: u64 = m % 10;
        digits.push((48 + d as u8) as char);
        m = m / 10;
        proof {
            assert(digits@.reverse() =~= seq![digit_char(m0 % 10)] + d0.reverse());
            if m0 < 10 {
                assert(spec_dec(m0) == seq![digit_char(m0)]);
                assert(m0 % 10 == m0);
                assert(spec_dec(n as nat) =~= digits@.reverse());
            } else {
                assert(spec_dec(m0) == spec_dec(m0 / 10).push(digit_char(m0 % 10)));
                assert(spec_dec(m0) =~= spec_dec(m0 / 10) + seq![digit_char(m0 % 10)]);
                assert(spec_dec(n as nat) =~= spec_dec(m as nat) + digits@.reverse());
            }
        }
        if m == 0 {
            break;
        }
    }
    let mut r = String::new();
    let mut i: usize = digits.len();
    while i > 0
        invariant
            i <= digits.len(),
            spec_dec(n as nat) == digits@.reverse(),
            r@ == digits@.reverse().take((digits@.len() - i) as int),
        decreases i,
    {
        i = i - 1;
        push_char(&mut r, digits[i]);
        proof {
            assert(r@ =~= digits@.reverse().take((digits@.len() - i) as int));
        }
    }
    proof {
        assert(r@ =~= spec_dec(n as nat));
    }
    r
}

/// Unicode `White_Space`, the set honored by `str::trim`.
pub open spec fn is_ws(c: char) -> bool {
    let u = c as u32;
    (9 <= u && u <= 13) || u == 32 || u == 0x85 || u == 0xA0 || u == 0x1680 || (0x2000 <= u && u
        <= 0x200A) || u == 0x2028 || u == 0x2029 || u == 0x202F || u == 0x205F || u == 0x3000
}

pub fn is_ws_ch(c: char) -> (b: bool)
    ensures
        b == is_ws(c),
{
    let u = c as u32;
    (9 <= u && u <= 13) || u == 32 || u == 0x85 || u == 0xA0 || u == 0x1680 || (0x2000 <= u && u
        <= 0x200A) || u == 0x2028 || u == 0x2029 || u == 0x202F || u == 0x205F || u == 0x3000
}

pub open spec fn spec_trim_start(s: Seq<char>) -> Seq<char>
    decreases s.len(),
{
    if s.len() > 0 && is_ws(s[0]) {
        spec_trim_start(s.drop_first())
    } else {
        s
    }
}

pub open spec fn spec_trim_end(s: Seq<char>) -> Seq<char>
    decreases s.len(),
{
    if s.len() > 0 && is_ws(s.last()) {
        spec_trim_end(s.drop_last())
    } else {
        s
    }
}

/// The characters of `s` with leading and trailing whitespace removed,
/// as `str::trim` leaves them.
pub open spec fn spec_trim(s: Seq<char>) -> Seq<char> {
    spec_trim_end(spec_trim_start(s))
}

proof fn lemma_trim_start_at(s: Seq<char>, lo: int)
    requires
        0 <= lo <= s.len(),
        forall|j: int| 0 <= j < lo ==> is_ws(s[j]),
        lo < s.len() ==> !is_ws(s[lo]),
    ensures
        spec_trim_start(s) == s.skip(lo),
    decreases lo,
{
    if lo == 0 {
        assert(s.skip(0) =~= s);
    } else {
        assert(is_ws(s[0]));
        lemma_trim_start_at(s.drop_first(), lo - 1);
        assert(s.drop_first().skip(lo - 1) =~= s.skip(lo));
    }
}

proof fn lemma_trim_end_at(s: Seq<char>, hi: int)
    requires
        0 <= hi <= s.len(),
        forall|j: int| hi <= j < s.len() ==> is_ws(s[j]),
        hi > 0 ==> !is_ws(s[hi - 1]),
    ensures
        spec_trim_end(s) == s.take(hi),
    decreases s.len() - hi,
{
    if hi == s.len() {
        assert(s.take(hi) =~= s);
    } else {
        assert(is_ws(s.last()));
        lemma_trim_end_at(s.drop_last(), hi);
        assert(s.drop_last().take(hi) =~= s.take(hi));
    }
}

/// `v` with leading and trailing whitespace removed.
pub fn trim_chars(v: &Vec<char>) -> (r: Vec<char>)
    ensures
        r@ == spec_trim(v@),
{
    let n = v.len();
    let mut lo: usize = 0;
    while lo < n && is_ws_ch(v[lo])
        invariant
            lo <= n,
            n == v@.len(),
            forall|j: int| 0 <= j < lo ==> is_ws(v@[j]),
        decreases n - lo,
    {
        lo = lo + 1;
    }
    proof {
        lemma_trim_start_at(v@, lo as int);
    }
    if lo == n {
        let r: Vec<char> = Vec::new();
        proof {
            assert(v@.skip(lo as int) =~= Seq::<char>::empty());
            assert(r@ =~= spec_trim(v@));
        }
        return r;
    }
    let mut hi: usize = n;
    while hi > lo + 1 && is_ws_ch(v[hi - 1])
        invariant
            lo < hi <= n,
            n == v@.len(),
            !is_ws(v@[lo as int]),
            forall|j: int| hi <= j < n ==> is_ws(v@[j]),
        decreases hi,
    {
        hi = hi - 1;
    }
    proof {
        lemma_trim_end_at(v@.skip(lo as int), hi - lo);
    }
    let mut r: Vec<char> = Vec::new();
    let mut i: usize = lo;
    while i < hi
        invariant
            lo <= i <= hi <= n,
            n == v@.len(),
            r@ == v@.subrange(lo as int, i as int),
        decreases hi - i,
    {
        r.push(v[i]);
        i = i + 1;
        proof {
            assert(r@ =~= v@.subrange(lo as int, i as int));
        }
    }
    proof {
        assert(v@.skip(lo as int).take(hi - lo) =~= v@.subrange(lo as int, hi as int));
        assert(r@ =~= spec_trim(v@));
    }
    r
}

/// ASCII lowercasing of one character.
pub open spec fn lower_char(c: char) -> char {
    if 65 <= c as u32 && c as u32 <= 90 {
        ((c as u32 + 32) as u8) as char
    } else {
        c
    }
}

pub open spec fn spec_lower(s: Seq<char>) -> Seq<char> {
    s.map_values(|c: char| lower_char(c))
}

/// `v` with every ASCII uppercase letter lowered.
pub fn lower_chars(v: &Vec<char>) -> (r: Vec<char>)
    ensures
        r@ == spec_lower(v@),
{
    let mut r: Vec<char> = Vec::new();
    let mut i: usize = 0;
    while i < v.len()
        invariant
            i <= v.len(),
            r@.len() == i,
            forall|j: int| 0 <= j < i ==> r@[j] == lower_char(v@[j]),
        decreases v.len() - i,
    {
        let c = v[i];
        let u = c as u32;
        if 65 <= u && u <= 90 {
            r.push(((u + 32) as u8) as char);
        } else {
            r.push(c);
        }
        i = i + 1;
    }
    proof {
        assert(r@ =~= spec_lower(v@));
    }
    r
}

/// True when the characters of `v` are exactly those of `s`.
pub fn eq_str(v: &Vec<char>, s: &str) -> (b: bool)
    ensures
        b == (v@ == s@),
{
    let n = s.unicode_len();
    if v.len() != n {
        return false;
    }
    let mut i: usize = 0;
    while i < n
        invariant
            i <= n,
            n == s@.len(),
            v@.len() == n,
            forall|j: int| 0 <= j < i ==> v@[j] == s@[j],
        decreases n - i,
    {
        if v[i] != s.get_char(i) {
            return false;
        }
        i = i + 1;
    }
    proof {
        assert(v@ =~= s@);
    }
    true
}

/// True when `p` is a prefix of `v`.
pub open spec fn spec_starts_with(v: Seq<char>, p: Seq<char>) -> bool {
    p.len() <= v.len() && v.subrange(0, p.len() as int) == p
}

pub fn starts_with_str(v: &Vec<char>, p: &str) -> (b: bool)
    ensures
        b == spec_starts_with(v@, p@),
{
    let m = p.unicode_len();
    if v.len() < m {
        return false;
    }
    let mut i: usize = 0;
    while i < m
        invariant
            i <= m,
            m == p@.len(),
            m <= v@.len(),
            forall|j: int| 0 <= j < i ==> v@[j] == p@[j],
        decreases m - i,
    {
        if v[i] != p.get_char(i) {
            proof {
                assert(v@.subrange(0, m as int)[i as int] != p@[i as int]);
            }
            return false;
        }
        i = i + 1;
    }
    proof {
        assert(v@.subrange(0, m as int) =~= p@);
    }
    true
}

/// True when `p` occurs in `v` starting at index `i`.
pub open spec fn spec_has_at(v: Seq<char>, p: Seq<char>, i: int) -> bool {
    0 <= i && i + p.len() <= v.len() && v.subrange(i, i + p.len()) == p
}

/// True when `p` occurs somewhere in `v`.
pub open spec fn spec_contains(v: Seq<char>, p: Seq<char>) -> bool {
    exists|i: int| spec_has_at(v, p, i)
}

fn has_at(v: &Vec<char>, p: &str, i: usize, m: usize) -> (b: bool)
    requires
        m == p@.len(),
        i + m <= v@.len(),
    ensures
        b == spec_has_at(v@, p@, i as int),
{
    let n = v.len();
    let mut j: usize = 0;
    while j < m
        invariant
            j <= m,
            m == p@.len(),
            n == v@.len(),
            i + m <= n,
            forall|l: int| 0 <= l < j ==> v@[i + l] == p@[l],
        decreases m - j,
    {
        if v[i + j] != p.get_char(j) {
            proof {
                assert(v@.subrange(i as int, i + m)[j as int] != p@[j as int]);
            }
            return false;
        }
        j = j + 1;
    }
    proof {
        assert(v@.subrange(i as int, i + m) =~= p@);
    }
    true
}

pub fn contains_str(v: &Vec<char>, p: &str) -> (b: bool)
    ensures
        b == spec_contains(v@, p@),
{
    let m = p.unicode_len();
    if v.len() < m {
        proof {
            assert(forall|i: int| !spec_has_at(v@, p@, i));
        }
        return false;
    }
    if m == 0 {
        proof {
            assert(v@.subrange(0, 0) =~= p@);
            assert(spec_has_at(v@, p@, 0));
        }
        return true;
    }
    let n = v.len();
    let bound = n - m;
    let mut i: usize = 0;
    while i <= bound
        invariant
            m == p@.len(),
            n == v@.len(),
            0 < m <= n,
            bound == n - m,
            i <= bound + 1,
            forall|k: int| 0 <= k < i ==> !spec_has_at(v@, p@, k),
        decreases bound + 1 - i,
    {
        if has_at(v, p, i, m) {
            proof {
                assert(spec_has_at(v@, p@, i as int));
            }
            return true;
        }
        i = i + 1;
    }
    proof {
        assert(forall|k: int| spec_has_at(v@, p@, k) ==> 0 <= k && k + p@.len() <= v@.len());
        assert(forall|k: int| !spec_has_at(v@, p@, k));
    }
    false
}

/// Number of occurrences of `c` in `s`.
pub open spec fn spec_count(s: Seq<char>, c: char) -> nat
    decreases s.len(),
{
    if s.len() == 0 {
        0
    } else {
        spec_count(s.drop_last(), c) + (if s.last() == c {
            1nat
        } else {
            0nat
        })
    }
}

/// Counts the occurrences of `c` in `v`.
pub fn count_char(v: &Vec<char>, c: char) -> (r: usize)
    ensures
        r == spec_count(v@, c),
{
    let mut r: usize = 0;
    let mut i: usize = 0;
    while i < v.len()
        invariant
            i <= v.len(),
            r == spec_count(v@.take(i as int), c),
            r <= i,
        decreases v.len() - i,
    {
        proof {
            assert(v@.take(i + 1).drop_last() =~= v@.take(i as int));
            assert(v@.take(i + 1).last() == v@[i as int]);
        }
        if v[i] == c {
            r = r + 1;
        }
        i = i + 1;
    }
    proof {
        assert(v@.take(v@.len() as int) =~= v@);
    }
    r
}

/// The characters of `v[lo..hi]`.
pub fn sub_chars(v: &Vec<char>, lo: usize, hi: usize) -> (r: Vec<char>)
    requires
        lo <= hi <= v@.len(),
    ensures
        r@ == v@.subrange(lo as int, hi as int),
{
    let mut r: Vec<char> = Vec::new();
    let mut i: usize = lo;
    proof {
        assert(r@ =~= v@.subrange(lo as int, lo as int));
    }
    while i < hi
        invariant
            lo <= i <= hi <= v@.len(),
            r@ == v@.subrange(lo as int, i as int),
        decreases hi - i,
    {
        r.push(v[i]);
        i = i + 1;
        proof {
            assert(r@ =~= v@.subrange(lo as int, i as int));
        }
    }
    r
}

/// A fresh vector with the same characters.
pub fn copy_chars(v: &Vec<char>) -> (r: Vec<char>)
    ensures
        r@ == v@,
{
    let mut r: Vec<char> = Vec::new();
    let mut i: usize = 0;
    while i < v.len()
        invariant
            i <= v@.len(),
            r@ == v@.take(i as int),
        decreases v@.len() - i,
    {
        r.push(v[i]);
        i = i + 1;
        proof {
            assert(r@ =~= v@.take(i as int));
        }
    }
    proof {
        assert(r@ =~= v@);
    }
    r
}

// ------------------------------------------------------------------
// Line splitting, as `str::lines` does it: split at `\n`, drop one `\r`
// just before each split point, and leave the final line ending optional.
// ------------------------------------------------------------------

pub struct LinesState {
    pub done: Seq<Seq<char>>,
    pub cur: Seq<char>,
}

pub open spec fn strip_cr(l: Seq<char>) -> Seq<char> {
    if l.len() > 0 && l.last() == '\r' {
        l.drop_last()
    } else {
        l
    }
}

pub open spec fn lines_step(st: LinesState, c: char) -> LinesState {
    if c == '\n' {
        LinesState { done: st.done.push(strip_cr(st.cur)), cur: Seq::empty() }
    } else {
        LinesState { done: st.done, cur: st.cur.push(c) }
    }
}

pub open spec fn lines_run(s: Seq<char>) -> LinesState {
    s.fold_left(
        LinesState { done: Seq::empty(), cur: Seq::empty() },
        |st: LinesState, c: char| lines_step(st, c),
    )
}

/// The lines of `s`.
pub open spec fn spec_lines(s: Seq<char>) -> Seq<Seq<char>> {
    let st = lines_run(s);
    if st.cur.len() > 0 {
        st.done.push(st.cur)
    } else {
        st.done
    }
}

/// Splits `v` into lines.
pub fn split_lines(v: &Vec<char>) -> (r: Vec<Vec<char>>)
    ensures
        r.deep_view() == spec_lines(v@),
{
    let mut done: Vec<Vec<char>> = Vec::new();
    let mut cur: Vec<char> = Vec::new();
    let mut i: usize = 0;
    proof {
        assert(v@.take(0) =~= Seq::<char>::empty());
        assert(done.deep_view() =~= Seq::<Seq<char>>::empty());
        assert(cur@ =~= Seq::<char>::empty());
    }
    while i < v.len()
        invariant
            i <= v@.len(),
            lines_run(v@.take(i as int)).done == done.deep_view(),
            lines_run(v@.take(i as int)).cur == cur@,
        decreases v@.len() - i,
    {
        let ghost st0 = lines_run(v@.take(i as int));
        let ghost d0 = done.deep_view();
        let c = v[i];
        if c == '\n' {
            if cur.len() > 0 && cur[cur.len() - 1] == '\r' {
                cur.pop();
            }
            proof {
                assert(cur@ == strip_cr(st0.cur));
            }
            done.push(cur);
            cur = Vec::new();
            proof {
                assert(done.deep_view() =~~= d0.push(strip_cr(st0.cur)));
            }
        } else {
            cur.push(c);
        }
        i = i + 1;
        proof {
            assert(v@.take(i as int).drop_last() =~= v@.take(i - 1));
            assert(v@.take(i as int).last() == v@[i - 1]);
            assert(lines_run(v@.take(i as int)) == lines_step(st0, v@[i - 1]));
        }
    }
    proof {
        assert(v@.take(v@.len() as int) =~= v@);
    }
    if cur.len() > 0 {
        let ghost d1 = done.deep_view();
        let ghost c1 = cur@;
        done.push(cur);
        proof {
            assert(done.deep_view() =~~= d1.push(c1));
        }
        done
    } else {
        done
    }
}

/// The parts joined with `sep` between consecutive parts.
pub open spec fn spec_join(parts: Seq<Seq<char>>, sep: Seq<char>) -> Seq<char>
    decreases parts.len(),
{
    if parts.len() == 0 {
        Seq::empty()
    } else if parts.len() == 1 {
        parts[0]
    } else {
        spec_join(parts.drop_last(), sep) + sep + parts.last()
    }
}

/// Joins the parts with `sep` between consecutive parts.
pub fn join_chars(parts: &Vec<Vec<char>>, sep: &Vec<char>) -> (r: Vec<char>)
    ensures
        r@ == spec_join(parts.deep_view(), sep@),
{
    let mut r: Vec<char> = Vec::new();
    let mut i: usize = 0;
    while i < parts.len()
        invariant
            i <= parts.len(),
            parts.deep_view().len() == parts@.len(),
            forall|j: int| 0 <= j < parts@.len() ==> parts.deep_view()[j] == #[trigger] parts@[j]@,
            r@ == spec_join(parts.deep_view().take(i as int), sep@),
        decreases parts.len() - i,
    {
        let ghost pre = parts.deep_view().take(i as int);
        if i > 0 {
            let mut k: usize = 0;
            while k < sep.len()
                invariant
                    k <= sep@.len(),
                    r@ == spec_join(pre, sep@) + sep@.take(k as int),
                decreases sep.len() - k,
            {
                r.push(sep[k]);
                k = k + 1;
                proof {
                    assert(r@ =~= spec_join(pre, sep@) + sep@.take(k as int));
                }
            }
            proof {
                assert(sep@.take(sep@.len() as int) =~= sep@);
            }
        }
        let part = &parts[i];
        let mut k: usize = 0;
        while k < part.len()
            invariant
                k <= part@.len(),
                part@ == parts@[i as int]@,
                r@ == (if i == 0 {
                    Seq::<char>::empty()
                } else {
                    spec_join(pre, sep@) + sep@
                }) + part@.take(k as int),
        decreases part.len() - k,
        {
            r.push(part[k]);
            k = k + 1;
            proof {
                assert(r@ =~= (if i == 0 {
                    Seq::<char>::empty()
                } else {
                    spec_join(pre, sep@) + sep@
                }) + part@.take(k as int));
            }
        }
        i = i + 1;
        proof {
            let post = parts.deep_view().take(i as int);
            assert(post.drop_last() =~= pre);
            assert(post.last() == parts@[i - 1]@);
            assert(part@.take(part@.len() as int) =~= part@);
            if i == 1 {
                assert(spec_join(post, sep@) == post[0]);
                assert(r@ =~= spec_join(post, sep@));
            } else {
                assert(spec_join(post, sep@) == spec_join(pre, sep@) + sep@ + parts@[i - 1]@);
                assert(r@ =~= spec_join(post, sep@));
            }
        }
    }
    proof {
        assert(parts.deep_view().take(parts@.len() as int) =~= parts.deep_view());
    }
    r
}

} // verus!

verus! {

// ------------------------------------------------------------------
// Byte lengths of character prefixes, for byte-offset reporting.
// ------------------------------------------------------------------

/// The UTF-8 byte length of the prefix `s.take(i)`.
pub open spec fn spec_prefix_bytes(s: Seq<char>, i: int) -> nat {
    vstd::utf8::encode_utf8(s.take(i)).len()
}

proof fn lemma_encode_utf8_append(a: Seq<char>, b: Seq<char>)
    ensures
        vstd::utf8::encode_utf8(a + b) == vstd::utf8::encode_utf8(a) + vstd::utf8::encode_utf8(
            b,
        ),
    decreases a.len(),
{
    if a.len() == 0 {
        assert(a + b =~= b);
        assert(vstd::utf8::encode_utf8(a) =~= Seq::<u8>::empty());
        assert(vstd::utf8::encode_utf8(a) + vstd::utf8::encode_utf8(b) =~= vstd::utf8::encode_utf8(
            b,
        ));
    } else {
        lemma_encode_utf8_append(a.drop_first(), b);
        assert((a + b).drop_first() =~= a.drop_first() + b);
        assert((a + b)[0] == a[0]);
        assert(vstd::utf8::encode_utf8(a + b) =~= vstd::utf8::encode_scalar((a + b)[0] as u32)
            + vstd::utf8::encode_utf8((a + b).drop_first()));
        assert(vstd::utf8::encode_utf8(a) + vstd::utf8::encode_utf8(b)
            =~= vstd::utf8::encode_scalar(a[0] as u32) + (vstd::utf8::encode_utf8(a.drop_first())
            + vstd::utf8::encode_utf8(b)));
    }
}

/// The byte length of one character's UTF-8 encoding.
fn char_utf8_len(c: char) -> (r: usize)
    ensures
        r == vstd::utf8::encode_scalar(c as u32).len(),
        1 <= r <= 4,
{
    let u = c as u32;
    if u <= 0x7F {
        1
    } else if u <= 0x7FF {
        2
    } else if u <= 0xFFFF {
        3
    } else {
        4
    }
}

/// The byte position truncated as the platform reports it.
pub open spec fn spec_bpos(s: Seq<char>, i: int) -> nat {
    (spec_prefix_bytes(s, i) as usize) as nat
}

/// Computes the byte length of the first `i` characters of `v`.
pub fn prefix_bytes(v: &Vec<char>, i: usize) -> (r: usize)
    requires
        i <= v@.len(),
    ensures
        r as nat == spec_bpos(v@, i as int),
{
    let mut b: u128 = 0;
    let mut k: usize = 0;
    proof {
        assert(v@.take(0) =~= Seq::<char>::empty());
        assert(spec_prefix_bytes(v@, 0) == 0);
    }
    while k < i
        invariant
            k <= i <= v@.len(),
            b == spec_prefix_bytes(v@, k as int),
            b <= 4 * (k as u128),
        decreases i - k,
    {
        let l = char_utf8_len(v[k]);
        proof {
            assert(v@.take(k + 1) =~= v@.take(k as int) + seq![v@[k as int]]);
            lemma_encode_utf8_append(v@.take(k as int), seq![v@[k as int]]);
            assert(seq![v@[k as int]].drop_first() =~= Seq::<char>::empty());
            assert(seq![v@[k as int]].len() == 1);
            assert(vstd::utf8::encode_utf8(seq![v@[k as int]]) =~= vstd::utf8::encode_scalar(
                v@[k as int] as u32,
            ) + vstd::utf8::encode_utf8(Seq::<char>::empty()));
            assert(vstd::utf8::encode_utf8(seq![v@[k as int]]).len() == l);
        }
        b = b + (l as u128);
        k = k + 1;
    }
    b as usize
}

} // verus!

verus! {

/// True when two character vectors hold the same characters.
pub fn eq_chars(a: &Vec<char>, b: &Vec<char>) -> (r: bool)
    ensures
        r == (a@ == b@),
{
    if a.len() != b.len() {
        return false;
    }
    let mut i: usize = 0;
    while i < a.len()
        invariant
            i <= a@.len(),
            a@.len() == b@.len(),
            forall|j: int| 0 <= j < i ==> a@[j] == b@[j],
        decreases a@.len() - i,
    {
        if a[i] != b[i] {
            return false;
        }
        i = i + 1;
    }
    proof {
        assert(a@ =~= b@);
    }
    true
}

} // verus!
