//! Hierarchical document flattener for the ISO 20022 XML dialect.
//!
//! A single left-to-right scan over a nested-element document, keeping a
//! path stack of enclosing element names and an accumulator of pending
//! fields. Leaf text and attributes become fields; boundary elements close
//! records. A structural failure aborts the whole parse with the byte
//! offset of the failure.

use vstd::prelude::*;
use crate::chars::{
    spec_dec, dec_u64, spec_trim, trim_chars, is_ws, is_ws_ch, spec_join, join_chars, to_chars,
    from_chars, sub_chars, copy_chars, spec_bpos, prefix_bytes, eq_str,
    eq_chars, spec_contains, contains_str,
};
use crate::infer::{spec_infer, infer_chars, is_digit, is_digit_ch, all_digits, digits_val, digit_val, lemma_digits_val_mono};
use crate::csv_parser::spec_prog;
use crate::fin_parser::{is_upper, dedup_add, insert_name};
use crate::types::{
    FieldModel, ValueModel, RecordModel, DataModel, MetaModel, ProgressModel, ParsedField,
    FieldValue, ParsedRecord, ParsedData, ParseMetadata, ParseProgress, ParserConfig, ParseError,
    config_equiv, spec_percentage,
};

verus! {

// ------------------------------------------------------------------
// Generic character finders.
// ------------------------------------------------------------------

/// Index of the first `c` at or after `from`, or the length.
pub open spec fn fc(s: Seq<char>, from: int, c: char) -> int
    decreases s.len() - from,
{
    if from < 0 || from >= s.len() {
        s.len() as int
    } else if s[from] == c {
        from
    } else {
        fc(s, from + 1, c)
    }
}

proof fn lemma_fc(s: Seq<char>, from: int, c: char)
    requires
        0 <= from <= s.len(),
    ensures
        from <= fc(s, from, c) <= s.len(),
        fc(s, from, c) < s.len() ==> s[fc(s, from, c)] == c,
    decreases s.len() - from,
{
    if from < s.len() && s[from] != c {
        lemma_fc(s, from + 1, c);
    }
}

fn find_ch(v: &Vec<char>, from: usize, c: char) -> (r: usize)
    requires
        from <= v@.len(),
    ensures
        r == fc(v@, from as int, c),
        from <= r <= v@.len(),
    decreases v@.len() - from,
{
    let mut i: usize = from;
    while i < v.len() && v[i] != c
        invariant
            from <= i <= v@.len(),
            fc(v@, from as int, c) == fc(v@, i as int, c),
        decreases v@.len() - i,
    {
        i = i + 1;
    }
    i
}

/// Index of the first position where `a` then `b` occur, or the length.
pub open spec fn fc2(s: Seq<char>, from: int, a: char, b: char) -> int
    decreases s.len() - from,
{
    if from < 0 || from + 1 >= s.len() {
        s.len() as int
    } else if s[from] == a && s[from + 1] == b {
        from
    } else {
        fc2(s, from + 1, a, b)
    }
}

fn find_ch2(v: &Vec<char>, from: usize, a: char, b: char) -> (r: usize)
    requires
        from <= v@.len(),
    ensures
        r == fc2(v@, from as int, a, b),
        from <= r <= v@.len(),
        r < v@.len() ==> r + 1 < v@.len() && v@[r as int] == a && v@[r + 1] == b,
    decreases v@.len() - from,
{
    let n = v.len();
    let mut i: usize = from;
    loop
        invariant_except_break
            from <= i <= n,
            n == v@.len(),
            fc2(v@, from as int, a, b) == fc2(v@, i as int, a, b),
        ensures
            from <= i <= n,
            n == v@.len(),
            fc2(v@, from as int, a, b) == fc2(v@, i as int, a, b),
            i + 1 >= n ==> fc2(v@, i as int, a, b) == n,
            i + 1 < n ==> v@[i as int] == a && v@[i + 1] == b && fc2(v@, i as int, a, b) == i,
        decreases v@.len() - i,
    {
        if n - i < 2 {
            break;
        }
        if v[i] == a && v[i + 1] == b {
            break;
        }
        i = i + 1;
    }
    if n - i < 2 {
        n
    } else {
        i
    }
}

/// Index of the first position where `a`, `b`, `c` occur, or the length.
pub open spec fn fc3(s: Seq<char>, from: int, a: char, b: char, c: char) -> int
    decreases s.len() - from,
{
    if from < 0 || from + 2 >= s.len() {
        s.len() as int
    } else if s[from] == a && s[from + 1] == b && s[from + 2] == c {
        from
    } else {
        fc3(s, from + 1, a, b, c)
    }
}

fn find_ch3(v: &Vec<char>, from: usize, a: char, b: char, c: char) -> (r: usize)
    requires
        from <= v@.len(),
    ensures
        r == fc3(v@, from as int, a, b, c),
        from <= r <= v@.len(),
        r < v@.len() ==> r + 2 < v@.len(),
    decreases v@.len() - from,
{
    let n = v.len();
    let mut i: usize = from;
    loop
        invariant_except_break
            from <= i <= n,
            n == v@.len(),
            fc3(v@, from as int, a, b, c) == fc3(v@, i as int, a, b, c),
        ensures
            from <= i <= n,
            n == v@.len(),
            fc3(v@, from as int, a, b, c) == fc3(v@, i as int, a, b, c),
            i + 2 >= n ==> fc3(v@, i as int, a, b, c) == n,
            i + 2 < n ==> v@[i as int] == a && v@[i + 1] == b && v@[i + 2] == c && fc3(
                v@,
                i as int,
                a,
                b,
                c,
            ) == i,
        decreases v@.len() - i,
    {
        if n - i < 3 {
            break;
        }
        if v[i] == a && v[i + 1] == b && v[i + 2] == c {
            break;
        }
        i = i + 1;
    }
    if n - i < 3 {
        n
    } else {
        i
    }
}

/// First whitespace position in `t`, or the length.
pub open spec fn fws(t: Seq<char>, from: int) -> int
    decreases t.len() - from,
{
    if from < 0 || from >= t.len() {
        t.len() as int
    } else if is_ws(t[from]) {
        from
    } else {
        fws(t, from + 1)
    }
}

fn find_ws(v: &Vec<char>, lo: usize, hi: usize) -> (r: usize)
    requires
        lo <= hi <= v@.len(),
    ensures
        lo <= r <= hi,
        r == (if fws(v@.subrange(lo as int, hi as int), 0) + lo <= hi {
            fws(v@.subrange(lo as int, hi as int), 0) + lo
        } else {
            hi as int
        }),
    decreases hi - lo,
{
    let ghost t = v@.subrange(lo as int, hi as int);
    let mut i: usize = lo;
    while i < hi && !is_ws_ch(v[i])
        invariant
            lo <= i <= hi <= v@.len(),
            t == v@.subrange(lo as int, hi as int),
            fws(t, 0) == fws(t, i - lo),
        decreases hi - i,
    {
        i = i + 1;
    }
    proof {
        if i < hi {
            assert(t[i - lo] == v@[i as int]);
            assert(fws(t, i - lo) == i - lo);
        } else {
            assert(fws(t, i - lo) == t.len());
        }
    }
    i
}

/// The element name of a tag body: the characters before the first
/// whitespace.
pub open spec fn spec_name_of(t: Seq<char>) -> Seq<char> {
    t.take(fws(t, 0))
}

// ------------------------------------------------------------------
// Attribute scanning: `name="value"` pairs, single or double quoted;
// malformed syntax stops the collection.
// ------------------------------------------------------------------

pub enum AttrMode {
    Ws,
    Name,
    Eq,
    PreVal,
    Val(char),
}

#[verifier::ext_equal]
pub struct AttrState {
    pub pairs: Seq<(Seq<char>, Seq<char>)>,
    pub mode: AttrMode,
    pub name: Seq<char>,
    pub val: Seq<char>,
    pub failed: bool,
}

pub open spec fn attr_init() -> AttrState {
    AttrState {
        pairs: Seq::empty(),
        mode: AttrMode::Ws,
        name: Seq::empty(),
        val: Seq::empty(),
        failed: false,
    }
}

pub open spec fn attr_step(st: AttrState, c: char) -> AttrState {
    if st.failed {
        st
    } else {
        match st.mode {
            AttrMode::Ws => {
                if is_ws(c) {
                    st
                } else if c == '=' {
                    AttrState { failed: true, ..st }
                } else {
                    AttrState { mode: AttrMode::Name, name: seq![c], ..st }
                }
            },
            AttrMode::Name => {
                if is_ws(c) {
                    AttrState { mode: AttrMode::Eq, ..st }
                } else if c == '=' {
                    AttrState { mode: AttrMode::PreVal, ..st }
                } else {
                    AttrState { name: st.name.push(c), ..st }
                }
            },
            AttrMode::Eq => {
                if is_ws(c) {
                    st
                } else if c == '=' {
                    AttrState { mode: AttrMode::PreVal, ..st }
                } else {
                    AttrState { failed: true, ..st }
                }
            },
            AttrMode::PreVal => {
                if is_ws(c) {
                    st
                } else if c == '"' || c == '\'' {
                    AttrState { mode: AttrMode::Val(c), val: Seq::empty(), ..st }
                } else {
                    AttrState { failed: true, ..st }
                }
            },
            AttrMode::Val(q) => {
                if c == q {
                    AttrState {
                        pairs: st.pairs.push((st.name, st.val)),
                        mode: AttrMode::Ws,
                        name: Seq::empty(),
                        val: Seq::empty(),
                        ..st
                    }
                } else {
                    AttrState { val: st.val.push(c), ..st }
                }
            },
        }
    }
}

/// The attributes of a tag body after the element name.
pub open spec fn spec_attrs(t: Seq<char>) -> Seq<(Seq<char>, Seq<char>)> {
    t.fold_left(attr_init(), |st: AttrState, c: char| attr_step(st, c)).pairs
}

/// Scans attributes from `v[lo..hi]`.
fn scan_attrs(v: &Vec<char>, lo: usize, hi: usize) -> (r: Vec<(Vec<char>, Vec<char>)>)
    requires
        lo <= hi <= v@.len(),
    ensures
        r@.map_values(|p: (Vec<char>, Vec<char>)| (p.0@, p.1@)) == spec_attrs(
            v@.subrange(lo as int, hi as int),
        ),
{
    let ghost t = v@.subrange(lo as int, hi as int);
    let mut pairs: Vec<(Vec<char>, Vec<char>)> = Vec::new();
    let mut name: Vec<char> = Vec::new();
    let mut val: Vec<char> = Vec::new();
    let mut mode = AttrMode::Ws;
    let mut failed = false;
    let mut i: usize = lo;
    proof {
        assert(t.take(0) =~= Seq::<char>::empty());
        assert(pairs@.map_values(|p: (Vec<char>, Vec<char>)| (p.0@, p.1@)) =~= Seq::<
            (Seq<char>, Seq<char>),
        >::empty());
        assert(name@ =~= Seq::<char>::empty());
        assert(val@ =~= Seq::<char>::empty());
    }
    while i < hi
        invariant
            lo <= i <= hi <= v@.len(),
            t == v@.subrange(lo as int, hi as int),
            t.fold_left(attr_init(), |st: AttrState, c: char| attr_step(st, c)) == t.fold_left(
                attr_init(),
                |st: AttrState, c: char| attr_step(st, c),
            ),
            t.take(i - lo).fold_left(attr_init(), |st: AttrState, c: char| attr_step(st, c))
                == (AttrState {
                pairs: pairs@.map_values(|p: (Vec<char>, Vec<char>)| (p.0@, p.1@)),
                mode: mode,
                name: name@,
                val: val@,
                failed: failed,
            }),
        decreases hi - i,
    {
        let ghost st0 = t.take(i - lo).fold_left(
            attr_init(),
            |st: AttrState, c: char| attr_step(st, c),
        );
        let ghost pairs0 = pairs@.map_values(|p: (Vec<char>, Vec<char>)| (p.0@, p.1@));
        let ghost name0 = name@;
        let ghost val0 = val@;
        let c = v[i];
        proof {
            assert(t[i - lo] == v@[i as int]);
        }
        if !failed {
            match mode {
                AttrMode::Ws => {
                    if is_ws_ch(c) {
                    } else if c == '=' {
                        failed = true;
                    } else {
                        mode = AttrMode::Name;
                        name = Vec::new();
                        name.push(c);
                        proof {
                            assert(name@ =~= seq![v@[i as int]]);
                        }
                    }
                },
                AttrMode::Name => {
                    if is_ws_ch(c) {
                        mode = AttrMode::Eq;
                    } else if c == '=' {
                        mode = AttrMode::PreVal;
                    } else {
                        name.push(c);
                    }
                },
                AttrMode::Eq => {
                    if is_ws_ch(c) {
                    } else if c == '=' {
                        mode = AttrMode::PreVal;
                    } else {
                        failed = true;
                    }
                },
                AttrMode::PreVal => {
                    if is_ws_ch(c) {
                    } else if c == '"' || c == '\'' {
                        mode = AttrMode::Val(c);
                        val = Vec::new();
                        proof {
                            assert(val@ =~= Seq::<char>::empty());
                        }
                    } else {
                        failed = true;
                    }
                },
                AttrMode::Val(q) => {
                    if c == q {
                        pairs.push((name, val));
                        name = Vec::new();
                        val = Vec::new();
                        mode = AttrMode::Ws;
                        proof {
                            assert(pairs@.map_values(
                                |p: (Vec<char>, Vec<char>)| (p.0@, p.1@),
                            ) =~= pairs0.push((name0, val0)));
                            assert(name@ =~= Seq::<char>::empty());
                            assert(val@ =~= Seq::<char>::empty());
                        }
                    } else {
                        val.push(c);
                    }
                },
            }
        }
        i = i + 1;
        proof {
            assert(t.take(i - lo).drop_last() =~= t.take(i - lo - 1));
            assert(t.take(i - lo).last() == t[i - lo - 1]);
            assert(t.take(i - lo).fold_left(
                attr_init(),
                |st: AttrState, c2: char| attr_step(st, c2),
            ) == attr_step(st0, t[i - lo - 1]));
        }
    }
    proof {
        assert(t.take(hi - lo) =~= t);
    }
    pairs
}

// ------------------------------------------------------------------
// Entity unescaping for text values: the five predefined entities and
// numeric character references; any other use of `&` makes the whole
// value unreadable, and the extractor then keeps empty text for the
// value.
// ------------------------------------------------------------------

pub enum UnescMode {
    Plain,
    Entity,
}

#[verifier::ext_equal]
pub struct UnescState {
    pub out: Seq<char>,
    pub ent: Seq<char>,
    pub mode: UnescMode,
    pub failed: bool,
}

pub open spec fn unesc_init() -> UnescState {
    UnescState { out: Seq::empty(), ent: Seq::empty(), mode: UnescMode::Plain, failed: false }
}

/// A Unicode scalar value: convertible to a character.
pub open spec fn is_scalar_value(u: nat) -> bool {
    u <= 0x10FFFF && !(0xD800 <= u && u <= 0xDFFF)
}

pub open spec fn is_hex_digit(c: char) -> bool {
    is_digit(c) || (97 <= c as u32 && c as u32 <= 102) || (65 <= c as u32 && c as u32 <= 70)
}

pub open spec fn hex_digit_val(c: char) -> nat {
    if is_digit(c) {
        digit_val(c)
    } else if 97 <= c as u32 {
        (c as u32 - 87) as nat
    } else {
        (c as u32 - 55) as nat
    }
}

pub open spec fn all_hex_digits(s: Seq<char>) -> bool {
    forall|i: int| 0 <= i < s.len() ==> is_hex_digit(#[trigger] s[i])
}

/// Value of a hex digit string, most significant digit first.
pub open spec fn hex_val(s: Seq<char>) -> nat
    decreases s.len(),
{
    if s.len() == 0 {
        0
    } else {
        hex_val(s.drop_last()) * 16 + hex_digit_val(s.last())
    }
}

proof fn lemma_hex_val_mono(s: Seq<char>, i: int)
    requires
        0 <= i <= s.len(),
    ensures
        hex_val(s.take(i)) <= hex_val(s),
    decreases s.len() - i,
{
    if i < s.len() {
        lemma_hex_val_mono(s, i + 1);
        assert(s.take(i + 1).drop_last() =~= s.take(i));
        assert(hex_val(s.take(i)) <= hex_val(s.take(i + 1)));
    } else {
        assert(s.take(i) =~= s);
    }
}

/// The character of a numeric reference body (what follows the `#`):
/// hexadecimal after a lowercase `x`, else decimal, valid exactly when the
/// digits are well formed and name a Unicode scalar.
pub open spec fn numeric_entity_char(e: Seq<char>) -> Option<char> {
    if e.len() > 0 && e[0] == 'x' {
        let d = e.skip(1);
        if d.len() > 0 && all_hex_digits(d) && is_scalar_value(hex_val(d)) {
            Option::Some((hex_val(d) as u32) as char)
        } else {
            Option::None
        }
    } else {
        if e.len() > 0 && all_digits(e) && is_scalar_value(digits_val(e)) {
            Option::Some((digits_val(e) as u32) as char)
        } else {
            Option::None
        }
    }
}

pub open spec fn entity_char(e: Seq<char>) -> Option<char> {
    if e.len() > 0 && e[0] == '#' {
        numeric_entity_char(e.skip(1))
    } else if e == "lt"@ {
        Option::Some('<')
    } else if e == "gt"@ {
        Option::Some('>')
    } else if e == "amp"@ {
        Option::Some('&')
    } else if e == "apos"@ {
        Option::Some('\'')
    } else if e == "quot"@ {
        Option::Some('"')
    } else {
        Option::None
    }
}

proof fn lemma_char_roundtrip(u: u32, c: char)
    requires
        u <= 0x10FFFF,
        !(0xD800 <= u && u <= 0xDFFF),
        c as u32 == u,
    ensures
        c == u as char,
{
}

/// Relies on `char::from_u32`: converts exactly the Unicode scalar values
/// (at most 0x10FFFF and not a surrogate), to the character with that
/// value.
#[verifier::external_body]
fn char_from_u32(u: u32) -> (r: Option<char>)
    ensures
        r is Some <==> is_scalar_value(u as nat),
        r is Some ==> r->0 as u32 == u,
{
    char::from_u32(u)
}

fn hex_digit_of(c: char) -> (r: Option<u32>)
    ensures
        match r {
            Option::Some(d) => is_hex_digit(c) && d == hex_digit_val(c),
            Option::None => !is_hex_digit(c),
        },
{
    let u = c as u32;
    if 48 <= u && u <= 57 {
        Option::Some(u - 48)
    } else if 97 <= u && u <= 102 {
        Option::Some(u - 87)
    } else if 65 <= u && u <= 70 {
        Option::Some(u - 55)
    } else {
        Option::None
    }
}

/// Resolves a numeric character reference given as the entity body after
/// the `#`.
fn numeric_entity(ent: &Vec<char>, start: usize) -> (r: Option<char>)
    requires
        start <= ent@.len(),
    ensures
        match r {
            Option::Some(c) => numeric_entity_char(ent@.skip(start as int)) == Option::Some(c),
            Option::None => numeric_entity_char(ent@.skip(start as int)) is None,
        },
{
    let ghost e = ent@.skip(start as int);
    let n = ent.len();
    let hex = start < n && ent[start] == 'x';
    let dstart = if hex {
        start + 1
    } else {
        start
    };
    let ghost dsq = ent@.skip(dstart as int);
    proof {
        if hex {
            assert(e.len() > 0 && e[0] == 'x');
            assert(e.skip(1) =~= dsq);
        } else {
            assert(dsq =~= e);
        }
    }
    if dstart == n {
        return Option::None;
    }
    let mut val: u64 = 0;
    let mut i: usize = dstart;
    proof {
        assert(dsq.take(0) =~= Seq::<char>::empty());
    }
    while i < n
        invariant
            start <= dstart <= i <= n,
            n == ent@.len(),
            dstart < n,
            hex ==> dstart == start + 1,
            !hex ==> dstart == start,
            hex == (ent@.skip(start as int).len() > 0 && ent@.skip(start as int)[0] == 'x'),
            dsq == ent@.skip(dstart as int),
            dsq.len() == n - dstart,
            forall|j: int| 0 <= j < dsq.len() ==> dsq[j] == ent@[dstart + j],
            hex ==> all_hex_digits(dsq.take(i - dstart)) && val == hex_val(
                dsq.take(i - dstart),
            ),
            !hex ==> all_digits(dsq.take(i - dstart)) && val == digits_val(
                dsq.take(i - dstart),
            ),
            val <= 0x10FFFF,
        decreases n - i,
    {
        let c = ent[i];
        let d: u32 = if hex {
            match hex_digit_of(c) {
                Option::Some(d) => d,
                Option::None => {
                    proof {
                        assert(!is_hex_digit(dsq[i - dstart]));
                        assert(!all_hex_digits(dsq));
                        assert(ent@.skip(start as int).skip(1) =~= dsq);
                    }
                    return Option::None;
                },
            }
        } else {
            if is_digit_ch(c) {
                (c as u32) - 48
            } else {
                proof {
                    assert(!is_digit(dsq[i - dstart]));
                    assert(!all_digits(dsq));
                }
                return Option::None;
            }
        };
        let ghost pre = dsq.take(i - dstart);
        proof {
            assert(dsq.take(i - dstart + 1).drop_last() =~= pre);
            assert(dsq.take(i - dstart + 1).last() == dsq[i - dstart]);
        }
        val = val * (if hex {
            16
        } else {
            10
        }) + (d as u64);
        if val > 0x10FFFF {
            proof {
                if hex {
                    lemma_hex_val_mono(dsq, i - dstart + 1);
                    assert(hex_val(dsq) > 0x10FFFF);
                    assert(ent@.skip(start as int).skip(1) =~= dsq);
                } else {
                    lemma_digits_val_mono(dsq, i - dstart + 1);
                    assert(digits_val(dsq) > 0x10FFFF);
                }
            }
            return Option::None;
        }
        i = i + 1;
    }
    proof {
        assert(dsq.take(n - dstart) =~= dsq);
    }
    let ghost full_val: nat = if hex {
        hex_val(dsq)
    } else {
        digits_val(dsq)
    };
    proof {
        assert(val == full_val);
        if hex {
            assert(ent@.skip(start as int).skip(1) =~= dsq);
        }
    }
    match char_from_u32(val as u32) {
        Option::Some(c) => {
            proof {
                assert(is_scalar_value((val as u32) as nat));
                assert(c as u32 == val as u32);
                lemma_char_roundtrip(val as u32, c);
                assert((full_val as u32) == val as u32);
                assert(is_scalar_value(full_val));
            }
            Option::Some(c)
        },
        Option::None => {
            proof {
                assert(!is_scalar_value(full_val));
            }
            Option::None
        },
    }
}

pub open spec fn unesc_step(st: UnescState, c: char) -> UnescState {
    if st.failed {
        st
    } else {
        match st.mode {
            UnescMode::Plain => {
                if c == '&' {
                    UnescState { ent: Seq::empty(), mode: UnescMode::Entity, ..st }
                } else {
                    UnescState { out: st.out.push(c), ..st }
                }
            },
            UnescMode::Entity => {
                if c == ';' {
                    match entity_char(st.ent) {
                        Option::Some(ch) => UnescState {
                            out: st.out.push(ch),
                            ent: Seq::empty(),
                            mode: UnescMode::Plain,
                            ..st
                        },
                        Option::None => UnescState { failed: true, ..st },
                    }
                } else {
                    UnescState { ent: st.ent.push(c), ..st }
                }
            },
        }
    }
}

/// The unescaped text, or `None` when an entity is unknown or
/// unterminated.
pub open spec fn spec_unescape(t: Seq<char>) -> Option<Seq<char>> {
    let st = t.fold_left(unesc_init(), |st: UnescState, c: char| unesc_step(st, c));
    if st.failed || (st.mode is Entity) {
        Option::None
    } else {
        Option::Some(st.out)
    }
}

/// Unescapes a text value.
fn unescape_chars(t: &Vec<char>) -> (r: Option<Vec<char>>)
    ensures
        match r {
            Option::Some(u) => spec_unescape(t@) == Option::Some(u@),
            Option::None => spec_unescape(t@) is None,
        },
{
    let mut out: Vec<char> = Vec::new();
    let mut ent: Vec<char> = Vec::new();
    let mut in_entity = false;
    let mut i: usize = 0;
    proof {
        assert(t@.take(0) =~= Seq::<char>::empty());
        assert(out@ =~= Seq::<char>::empty());
        assert(ent@ =~= Seq::<char>::empty());
    }
    while i < t.len()
        invariant
            i <= t@.len(),
            t@.take(i as int).fold_left(unesc_init(), |st: UnescState, c: char| unesc_step(st, c))
                == (UnescState {
                out: out@,
                ent: ent@,
                mode: if in_entity {
                    UnescMode::Entity
                } else {
                    UnescMode::Plain
                },
                failed: false,
            }),
        decreases t@.len() - i,
    {
        let ghost st0 = t@.take(i as int).fold_left(
            unesc_init(),
            |st: UnescState, c: char| unesc_step(st, c),
        );
        let c = t[i];
        let mut bad = false;
        if !in_entity {
            if c == '&' {
                ent = Vec::new();
                in_entity = true;
                proof {
                    assert(ent@ =~= Seq::<char>::empty());
                }
            } else {
                out.push(c);
            }
        } else {
            if c == ';' {
                if ent.len() > 0 && ent[0] == '#' {
                    match numeric_entity(&ent, 1) {
                        Option::Some(c2) => {
                            out.push(c2);
                        },
                        Option::None => {
                            bad = true;
                        },
                    }
                } else if eq_str(&ent, "lt") {
                    out.push('<');
                } else if eq_str(&ent, "gt") {
                    out.push('>');
                } else if eq_str(&ent, "amp") {
                    out.push('&');
                } else if eq_str(&ent, "apos") {
                    out.push('\'');
                } else if eq_str(&ent, "quot") {
                    out.push('"');
                } else {
                    bad = true;
                }
                if !bad {
                    ent = Vec::new();
                    in_entity = false;
                    proof {
                        assert(ent@ =~= Seq::<char>::empty());
                    }
                }
            } else {
                ent.push(c);
            }
        }
        i = i + 1;
        proof {
            assert(t@.take(i as int).drop_last() =~= t@.take(i - 1));
            assert(t@.take(i as int).last() == t@[i - 1]);
            assert(t@.take(i as int).fold_left(
                unesc_init(),
                |st: UnescState, c2: char| unesc_step(st, c2),
            ) == unesc_step(st0, t@[i - 1]));
        }
        if bad {
            proof {
                assert(unesc_step(st0, t@[i - 1]).failed);
                lemma_unesc_failed_stays(t@, i as int);
            }
            return Option::None;
        }
    }
    proof {
        assert(t@.take(t@.len() as int) =~= t@);
    }
    if in_entity {
        return Option::None;
    }
    Option::Some(out)
}

proof fn lemma_unesc_failed_stays(t: Seq<char>, i: int)
    requires
        0 <= i <= t.len(),
        t.take(i).fold_left(unesc_init(), |st: UnescState, c: char| unesc_step(st, c)).failed,
    ensures
        t.fold_left(unesc_init(), |st: UnescState, c: char| unesc_step(st, c)).failed,
    decreases t.len() - i,
{
    if i < t.len() {
        assert(t.take(i + 1).drop_last() =~= t.take(i));
        assert(t.take(i + 1).last() == t[i]);
        assert(t.take(i + 1).fold_left(unesc_init(), |st: UnescState, c: char| unesc_step(st, c))
            == unesc_step(
            t.take(i).fold_left(unesc_init(), |st: UnescState, c: char| unesc_step(st, c)),
            t[i],
        ));
        lemma_unesc_failed_stays(t, i + 1);
    } else {
        assert(t.take(i) =~= t);
    }
}

// ------------------------------------------------------------------
// Field-name humanizing and classification dictionaries.
// ------------------------------------------------------------------

/// Title-casing of an unknown name: a space before each interior
/// uppercase letter.
pub open spec fn spec_camel_split(s: Seq<char>) -> Seq<char>
    decreases s.len(),
{
    if s.len() == 0 {
        Seq::empty()
    } else {
        spec_camel_split(s.drop_last()) + (if is_upper(s.last()) && s.len() > 1 {
            seq![' ', s.last()]
        } else {
            seq![s.last()]
        })
    }
}

fn camel_split(name: &Vec<char>) -> (r: String)
    ensures
        r@ == spec_camel_split(name@),
{
    let mut out: Vec<char> = Vec::new();
    let mut i: usize = 0;
    proof {
        assert(name@.take(0) =~= Seq::<char>::empty());
        assert(out@ =~= Seq::<char>::empty());
    }
    while i < name.len()
        invariant
            i <= name@.len(),
            out@ == spec_camel_split(name@.take(i as int)),
        decreases name@.len() - i,
    {
        let ghost o0 = out@;
        let c = name[i];
        let u = c as u32;
        if 65 <= u && u <= 90 && i > 0 {
            out.push(' ');
            out.push(c);
            proof {
                assert(out@ =~= o0 + seq![' ', name@[i as int]]);
            }
        } else {
            out.push(c);
            proof {
                assert(out@ =~= o0 + seq![name@[i as int]]);
            }
        }
        i = i + 1;
        proof {
            assert(name@.take(i as int).drop_last() =~= name@.take(i - 1));
            assert(name@.take(i as int).last() == name@[i - 1]);
            assert(name@.take(i as int).len() == i);
        }
    }
    proof {
        assert(name@.take(name@.len() as int) =~= name@);
    }
    from_chars(&out)
}

/// The display name of an element or attribute, through the fixed field
/// dictionary, else by title-casing.
pub open spec fn spec_humanize(name: Seq<char>) -> Seq<char> {
    if name == "MsgId"@ {
        "Message ID"@
    } else if name == "CreDtTm"@ {
        "Creation Date/Time"@
    } else if name == "NbOfTxs"@ {
        "Number of Transactions"@
    } else if name == "CtrlSum"@ {
        "Control Sum"@
    } else if name == "InitgPty"@ {
        "Initiating Party"@
    } else if name == "Nm"@ {
        "Name"@
    } else if name == "PmtInfId"@ {
        "Payment Information ID"@
    } else if name == "PmtMtd"@ {
        "Payment Method"@
    } else if name == "BtchBookg"@ {
        "Batch Booking"@
    } else if name == "ReqdExctnDt"@ {
        "Requested Execution Date"@
    } else if name == "Dbtr"@ {
        "Debtor"@
    } else if name == "DbtrAcct"@ {
        "Debtor Account"@
    } else if name == "DbtrAgt"@ {
        "Debtor Agent"@
    } else if name == "CdtTrfTxInf"@ {
        "Credit Transfer Transaction"@
    } else if name == "PmtId"@ {
        "Payment ID"@
    } else if name == "EndToEndId"@ {
        "End-to-End ID"@
    } else if name == "InstrId"@ {
        "Instruction ID"@
    } else if name == "Amt"@ {
        "Amount"@
    } else if name == "InstdAmt"@ {
        "Instructed Amount"@
    } else if name == "Ccy"@ {
        "Currency"@
    } else if name == "CdtrAgt"@ {
        "Creditor Agent"@
    } else if name == "Cdtr"@ {
        "Creditor"@
    } else if name == "CdtrAcct"@ {
        "Creditor Account"@
    } else if name == "RmtInf"@ {
        "Remittance Information"@
    } else if name == "Ustrd"@ {
        "Unstructured"@
    } else if name == "Strd"@ {
        "Structured"@
    } else if name == "IBAN"@ {
        "IBAN"@
    } else if name == "BIC"@ {
        "BIC"@
    } else if name == "BICFI"@ {
        "BIC/FI"@
    } else if name == "Id"@ {
        "ID"@
    } else if name == "Othr"@ {
        "Other"@
    } else if name == "FinInstnId"@ {
        "Financial Institution ID"@
    } else if name == "Bal"@ {
        "Balance"@
    } else if name == "Tp"@ {
        "Type"@
    } else if name == "CdOrPrtry"@ {
        "Code or Proprietary"@
    } else if name == "Cd"@ {
        "Code"@
    } else if name == "Prtry"@ {
        "Proprietary"@
    } else if name == "Dt"@ {
        "Date"@
    } else if name == "DtTm"@ {
        "Date/Time"@
    } else if name == "Ntry"@ {
        "Entry"@
    } else if name == "NtryDtls"@ {
        "Entry Details"@
    } else if name == "TxDtls"@ {
        "Transaction Details"@
    } else if name == "Refs"@ {
        "References"@
    } else if name == "AcctSvcrRef"@ {
        "Account Servicer Reference"@
    } else if name == "BookgDt"@ {
        "Booking Date"@
    } else if name == "ValDt"@ {
        "Value Date"@
    } else if name == "Sts"@ {
        "Status"@
    } else if name == "CdtDbtInd"@ {
        "Credit/Debit Indicator"@
    } else {
        spec_camel_split(name)
    }
}

/// Humanizes a field name.
pub fn humanize_field(name: &str) -> (r: String)
    ensures
        r@ == spec_humanize(name@),
{
    let v = to_chars(name);
    humanize_chars(&v)
}

fn humanize_chars(name: &Vec<char>) -> (r: String)
    ensures
        r@ == spec_humanize(name@),
{
    if eq_str(name, "MsgId") {
        String::from_str("Message ID")
    } else if eq_str(name, "CreDtTm") {
        String::from_str("Creation Date/Time")
    } else if eq_str(name, "NbOfTxs") {
        String::from_str("Number of Transactions")
    } else if eq_str(name, "CtrlSum") {
        String::from_str("Control Sum")
    } else if eq_str(name, "InitgPty") {
        String::from_str("Initiating Party")
    } else if eq_str(name, "Nm") {
        String::from_str("Name")
    } else if eq_str(name, "PmtInfId") {
        String::from_str("Payment Information ID")
    } else if eq_str(name, "PmtMtd") {
        String::from_str("Payment Method")
    } else if eq_str(name, "BtchBookg") {
        String::from_str("Batch Booking")
    } else if eq_str(name, "ReqdExctnDt") {
        String::from_str("Requested Execution Date")
    } else if eq_str(name, "Dbtr") {
        String::from_str("Debtor")
    } else if eq_str(name, "DbtrAcct") {
        String::from_str("Debtor Account")
    } else if eq_str(name, "DbtrAgt") {
        String::from_str("Debtor Agent")
    } else if eq_str(name, "CdtTrfTxInf") {
        String::from_str("Credit Transfer Transaction")
    } else if eq_str(name, "PmtId") {
        String::from_str("Payment ID")
    } else if eq_str(name, "EndToEndId") {
        String::from_str("End-to-End ID")
    } else if eq_str(name, "InstrId") {
        String::from_str("Instruction ID")
    } else if eq_str(name, "Amt") {
        String::from_str("Amount")
    } else if eq_str(name, "InstdAmt") {
        String::from_str("Instructed Amount")
    } else if eq_str(name, "Ccy") {
        String::from_str("Currency")
    } else if eq_str(name, "CdtrAgt") {
        String::from_str("Creditor Agent")
    } else if eq_str(name, "Cdtr") {
        String::from_str("Creditor")
    } else if eq_str(name, "CdtrAcct") {
        String::from_str("Creditor Account")
    } else if eq_str(name, "RmtInf") {
        String::from_str("Remittance Information")
    } else if eq_str(name, "Ustrd") {
        String::from_str("Unstructured")
    } else if eq_str(name, "Strd") {
        String::from_str("Structured")
    } else if eq_str(name, "IBAN") {
        String::from_str("IBAN")
    } else if eq_str(name, "BIC") {
        String::from_str("BIC")
    } else if eq_str(name, "BICFI") {
        String::from_str("BIC/FI")
    } else if eq_str(name, "Id") {
        String::from_str("ID")
    } else if eq_str(name, "Othr") {
        String::from_str("Other")
    } else if eq_str(name, "FinInstnId") {
        String::from_str("Financial Institution ID")
    } else if eq_str(name, "Bal") {
        String::from_str("Balance")
    } else if eq_str(name, "Tp") {
        String::from_str("Type")
    } else if eq_str(name, "CdOrPrtry") {
        String::from_str("Code or Proprietary")
    } else if eq_str(name, "Cd") {
        String::from_str("Code")
    } else if eq_str(name, "Prtry") {
        String::from_str("Proprietary")
    } else if eq_str(name, "Dt") {
        String::from_str("Date")
    } else if eq_str(name, "DtTm") {
        String::from_str("Date/Time")
    } else if eq_str(name, "Ntry") {
        String::from_str("Entry")
    } else if eq_str(name, "NtryDtls") {
        String::from_str("Entry Details")
    } else if eq_str(name, "TxDtls") {
        String::from_str("Transaction Details")
    } else if eq_str(name, "Refs") {
        String::from_str("References")
    } else if eq_str(name, "AcctSvcrRef") {
        String::from_str("Account Servicer Reference")
    } else if eq_str(name, "BookgDt") {
        String::from_str("Booking Date")
    } else if eq_str(name, "ValDt") {
        String::from_str("Value Date")
    } else if eq_str(name, "Sts") {
        String::from_str("Status")
    } else if eq_str(name, "CdtDbtInd") {
        String::from_str("Credit/Debit Indicator")
    } else {
        camel_split(name)
    }
}

} // verus!

verus! {

// ------------------------------------------------------------------
// The event scanner: declarations, comments and CDATA are skipped, start
// tags carry their attributes, and malformed markup ends the stream with
// an error event.
// ------------------------------------------------------------------

/// One scanner event, with the character position the construct starts at.
#[verifier::ext_equal]
pub enum EventModel {
    EStart(Seq<char>, Seq<(Seq<char>, Seq<char>)>, int),
    EEnd(Seq<char>, int),
    EText(Seq<char>),
    EErr(int),
}

/// One scanner event in executable form.
pub enum XmlEvent {
    Start(Vec<char>, Vec<(Vec<char>, Vec<char>)>, usize),
    End(Vec<char>, usize),
    Text(Vec<char>),
    Fail(usize),
}

impl XmlEvent {
    pub open spec fn model(&self) -> EventModel {
        match self {
            XmlEvent::Start(n, a, p) => EventModel::EStart(
                n@,
                a@.map_values(|q: (Vec<char>, Vec<char>)| (q.0@, q.1@)),
                *p as int,
            ),
            XmlEvent::End(n, p) => EventModel::EEnd(n@, *p as int),
            XmlEvent::Text(v) => EventModel::EText(v@),
            XmlEvent::Fail(p) => EventModel::EErr(*p as int),
        }
    }
}

proof fn lemma_fws_range(t: Seq<char>, from: int)
    requires
        0 <= from <= t.len(),
    ensures
        from <= fws(t, from) <= t.len(),
    decreases t.len() - from,
{
    if from < t.len() && !is_ws(t[from]) {
        lemma_fws_range(t, from + 1);
    }
}

/// The event (or skip) beginning at the `<` at position `p`, and the
/// position scanning resumes at.
pub open spec fn spec_construct(s: Seq<char>, p: int) -> (Option<EventModel>, int) {
    if p + 1 >= s.len() {
        (Option::Some(EventModel::EErr(p)), s.len() as int)
    } else {
        let c1 = s[p + 1];
        if c1 == '?' {
            let m = fc2(s, p + 2, '?', '>');
            if m < s.len() {
                (Option::None, m + 2)
            } else {
                (Option::Some(EventModel::EErr(p)), s.len() as int)
            }
        } else if c1 == '!' {
            if p + 3 < s.len() && s[p + 2] == '-' && s[p + 3] == '-' {
                let m = fc3(s, p + 4, '-', '-', '>');
                if m < s.len() {
                    (Option::None, m + 3)
                } else {
                    (Option::Some(EventModel::EErr(p)), s.len() as int)
                }
            } else if p + 8 < s.len() && s[p + 2] == '[' && s[p + 3] == 'C' && s[p + 4] == 'D'
                && s[p + 5] == 'A' && s[p + 6] == 'T' && s[p + 7] == 'A' && s[p + 8] == '[' {
                let m = fc3(s, p + 9, ']', ']', '>');
                if m < s.len() {
                    (Option::None, m + 3)
                } else {
                    (Option::Some(EventModel::EErr(p)), s.len() as int)
                }
            } else {
                let m = fc(s, p + 2, '>');
                if m < s.len() {
                    (Option::None, m + 1)
                } else {
                    (Option::Some(EventModel::EErr(p)), s.len() as int)
                }
            }
        } else if c1 == '/' {
            let m = fc(s, p + 2, '>');
            if m < s.len() {
                (
                    Option::Some(EventModel::EEnd(spec_name_of(s.subrange(p + 2, m)), p)),
                    m + 1,
                )
            } else {
                (Option::Some(EventModel::EErr(p)), s.len() as int)
            }
        } else {
            let m = fc(s, p + 1, '>');
            if m >= s.len() {
                (Option::Some(EventModel::EErr(p)), s.len() as int)
            } else {
                let inner = s.subrange(p + 1, m);
                if inner.len() > 0 && inner.last() == '/' {
                    (Option::None, m + 1)
                } else {
                    let nm = spec_name_of(inner);
                    (
                        Option::Some(
                            EventModel::EStart(nm, spec_attrs(inner.skip(nm.len() as int)), p),
                        ),
                        m + 1,
                    )
                }
            }
        }
    }
}

pub open spec fn bump(i: int, n: int) -> int {
    if n > i {
        n
    } else {
        i + 1
    }
}

/// The event stream of a document, from position `i` on.
pub open spec fn spec_events(s: Seq<char>, i: int) -> Seq<EventModel>
    decreases s.len() - i,
{
    if i < 0 || i >= s.len() {
        Seq::empty()
    } else {
        let l0 = fc(s, i, '<');
        let l = if l0 > s.len() {
            s.len() as int
        } else if l0 < i {
            i
        } else {
            l0
        };
        let trimmed = spec_trim(s.subrange(i, l));
        let tev: Seq<EventModel> = if trimmed.len() > 0 {
            seq![
                EventModel::EText(
                    match spec_unescape(trimmed) {
                        Option::Some(u) => u,
                        Option::None => Seq::empty(),
                    },
                ),
            ]
        } else {
            Seq::empty()
        };
        if l >= s.len() {
            tev
        } else {
            let step = spec_construct(s, l);
            let nx0 = bump(l, step.1);
            let nx = if nx0 > s.len() {
                s.len() as int
            } else {
                nx0
            };
            match step.0 {
                Option::Some(EventModel::EErr(pp)) => tev + seq![EventModel::EErr(pp)],
                Option::Some(e) => tev + seq![e] + spec_events(s, nx),
                Option::None => tev + spec_events(s, nx),
            }
        }
    }
}

/// Scans the document into its event stream.
#[verifier::rlimit(100)]
fn scan_events(v: &Vec<char>) -> (evs: Vec<XmlEvent>)
    ensures
        evs@.map_values(|e: XmlEvent| e.model()) == spec_events(v@, 0),
{
    let n = v.len();
    let ghost all = spec_events(v@, 0);
    let mut evs: Vec<XmlEvent> = Vec::new();
    let mut i: usize = 0;
    proof {
        assert(evs@.map_values(|e: XmlEvent| e.model()) + spec_events(v@, 0) =~= all);
    }
    while i < n
        invariant
            i <= n,
            n == v@.len(),
            evs@.map_values(|e: XmlEvent| e.model()) + spec_events(v@, i as int) =~= all,
        decreases n - i,
    {
        let ghost acc0 = evs@.map_values(|e: XmlEvent| e.model());
        let l = find_ch(v, i, '<');
        let ghost trimmed = spec_trim(v@.subrange(i as int, l as int));
        let ghost tev: Seq<EventModel> = if trimmed.len() > 0 {
            seq![
                EventModel::EText(
                    match spec_unescape(trimmed) {
                        Option::Some(u) => u,
                        Option::None => Seq::<char>::empty(),
                    },
                ),
            ]
        } else {
            Seq::<EventModel>::empty()
        };
        if l > i {
            let raw = sub_chars(v, i, l);
            let tr = trim_chars(&raw);
            if tr.len() > 0 {
                let value: Vec<char> = match unescape_chars(&tr) {
                    Option::Some(x) => x,
                    Option::None => Vec::new(),
                };
                evs.push(XmlEvent::Text(value));
                proof {
                    assert(evs@.map_values(|e: XmlEvent| e.model()) =~= acc0 + tev);
                }
            } else {
                proof {
                    assert(tev =~= Seq::<EventModel>::empty());
                    assert(evs@.map_values(|e: XmlEvent| e.model()) =~= acc0 + tev);
                }
            }
        } else {
            proof {
                assert(v@.subrange(i as int, l as int) =~= Seq::<char>::empty());
                assert(spec_trim(Seq::<char>::empty()) =~= Seq::<char>::empty());
                assert(tev =~= Seq::<EventModel>::empty());
                assert(evs@.map_values(|e: XmlEvent| e.model()) =~= acc0 + tev);
            }
        }
        let ghost acc1 = evs@.map_values(|e: XmlEvent| e.model());
        if l >= n {
            proof {
                assert(spec_events(v@, i as int) == tev);
                assert(acc1 =~= all);
                assert(acc1 + spec_events(v@, n as int) =~= all);
            }
            i = n;
        } else {
            // a construct starts at l
            let mut err = false;
            let mut event: Option<XmlEvent> = Option::None;
            let mut next: usize = n;
            if l + 1 >= n {
                err = true;
            } else {
                let c1 = v[l + 1];
                if c1 == '?' {
                    let m = find_ch2(v, l + 2, '?', '>');
                    if m < n {
                        next = m + 2;
                    } else {
                        err = true;
                    }
                } else if c1 == '!' {
                    if n - l > 3 && v[l + 2] == '-' && v[l + 3] == '-' {
                        let m = find_ch3(v, l + 4, '-', '-', '>');
                        if m < n {
                            next = m + 3;
                        } else {
                            err = true;
                        }
                    } else if n - l > 8 && v[l + 2] == '[' && v[l + 3] == 'C' && v[l + 4] == 'D'
                        && v[l + 5] == 'A' && v[l + 6] == 'T' && v[l + 7] == 'A' && v[l + 8]
                        == '[' {
                        let m = find_ch3(v, l + 9, ']', ']', '>');
                        if m < n {
                            next = m + 3;
                        } else {
                            err = true;
                        }
                    } else {
                        let m = find_ch(v, l + 2, '>');
                        if m < n {
                            next = m + 1;
                        } else {
                            err = true;
                        }
                    }
                } else if c1 == '/' {
                    let m = find_ch(v, l + 2, '>');
                    if m < n {
                        let fw = find_ws(v, l + 2, m);
                        let name = sub_chars(v, l + 2, fw);
                        proof {
                            lemma_fws_range(v@.subrange(l + 2, m as int), 0);
                            assert(spec_name_of(v@.subrange(l + 2, m as int)) =~= v@.subrange(
                                l + 2,
                                fw as int,
                            ));
                        }
                        event = Option::Some(XmlEvent::End(name, l));
                        next = m + 1;
                    } else {
                        err = true;
                    }
                } else {
                    let m = find_ch(v, l + 1, '>');
                    if m >= n {
                        err = true;
                    } else {
                        if m > l + 1 && v[m - 1] == '/' {
                            proof {
                                let inner = v@.subrange(l + 1, m as int);
                                assert(inner.len() > 0 && inner.last() == '/');
                            }
                            next = m + 1;
                        } else {
                            let fw = find_ws(v, l + 1, m);
                            let name = sub_chars(v, l + 1, fw);
                            let attrs = scan_attrs(v, fw, m);
                            proof {
                                let inner = v@.subrange(l + 1, m as int);
                                assert(!(inner.len() > 0 && inner.last() == '/'));
                                lemma_fws_range(inner, 0);
                                assert(spec_name_of(inner) =~= v@.subrange(l + 1, fw as int));
                                assert(inner.skip(spec_name_of(inner).len() as int)
                                    =~= v@.subrange(fw as int, m as int));
                            }
                            event = Option::Some(XmlEvent::Start(name, attrs, l));
                            next = m + 1;
                        }
                    }
                }
            }
            if err {
                evs.push(XmlEvent::Fail(l));
                proof {
                    assert(spec_construct(v@, l as int).0 == Option::Some(
                        EventModel::EErr(l as int),
                    ));
                    assert(spec_events(v@, i as int) == tev + seq![EventModel::EErr(l as int)]);
                    assert(evs@.map_values(|e: XmlEvent| e.model()) =~= acc1 + seq![
                        EventModel::EErr(l as int),
                    ]);
                    assert(evs@.map_values(|e: XmlEvent| e.model()) =~= all);
                    assert(evs@.map_values(|e: XmlEvent| e.model()) + spec_events(v@, n as int)
                        =~= all);
                }
                i = n;
            } else {
                let ghost sc = spec_construct(v@, l as int);
                match event {
                    Option::Some(e) => {
                        proof {
                            assert(sc.0 == Option::Some(e.model()));
                            assert(sc.1 == next as int);
                            assert(!(e.model() is EErr));
                            assert(bump(l as int, next as int) == next as int);
                            assert(next <= n);
                            assert(spec_events(v@, i as int) == tev + seq![e.model()]
                                + spec_events(v@, next as int));
                        }
                        evs.push(e);
                        proof {
                            assert(evs@.map_values(|e2: XmlEvent| e2.model()) =~= acc1 + seq![
                                evs@[evs@.len() - 1].model(),
                            ]);
                            assert(evs@.map_values(|e2: XmlEvent| e2.model()) + spec_events(
                                v@,
                                next as int,
                            ) =~= all);
                        }
                    },
                    Option::None => {
                        proof {
                            assert(sc.0 is None);
                            assert(sc.1 == next as int);
                            assert(bump(l as int, next as int) == next as int);
                            assert(next <= n);
                            assert(spec_events(v@, i as int) == tev + spec_events(
                                v@,
                                next as int,
                            ));
                            assert(evs@.map_values(|e2: XmlEvent| e2.model()) + spec_events(
                                v@,
                                next as int,
                            ) =~= all);
                        }
                    },
                }
                i = next;
            }
        }
    }
    proof {
        assert(spec_events(v@, n as int) =~= Seq::<EventModel>::empty());
        assert(evs@.map_values(|e: XmlEvent| e.model()) =~= all);
    }
    evs
}

} // verus!

verus! {

// ------------------------------------------------------------------
// Record boundaries, record kinds, and message-type classification.
// ------------------------------------------------------------------

pub open spec fn spec_boundary_name(name: Seq<char>) -> bool {
    ||| name == "CdtTrfTxInf"@
    ||| name == "DrctDbtTxInf"@
    ||| name == "TxDtls"@
    ||| name == "Ntry"@
    ||| name == "NtryDtls"@
    ||| name == "PmtInf"@
    ||| name == "Stmt"@
    ||| name == "Bal"@
}

/// Whether closing `name` seals the accumulated fields into a record:
/// either a known transaction-style element, or any element sitting right
/// under the document root.
pub open spec fn spec_is_record_boundary(name: Seq<char>, path: Seq<Seq<char>>) -> bool {
    spec_boundary_name(name) || (path.len() == 2 && name != "Document"@)
}

fn boundary_chars(name: &Vec<char>, path_len: usize) -> (r: bool)
    ensures
        forall|p: Seq<Seq<char>>|
            p.len() == path_len ==> r == #[trigger] spec_is_record_boundary(name@, p),
{
    eq_str(name, "CdtTrfTxInf") || eq_str(name, "DrctDbtTxInf") || eq_str(name, "TxDtls")
        || eq_str(name, "Ntry") || eq_str(name, "NtryDtls") || eq_str(name, "PmtInf") || eq_str(
        name,
        "Stmt",
    ) || eq_str(name, "Bal") || (path_len == 2 && !eq_str(name, "Document"))
}

/// Checks whether closing `name` under `path` seals a record.
pub fn is_record_boundary(name: &str, path: &Vec<String>) -> (r: bool)
    ensures
        r == spec_is_record_boundary(name@, path.deep_view()),
{
    let v = to_chars(name);
    proof {
        assert(path.deep_view().len() == path@.len());
    }
    boundary_chars(&v, path.len())
}

pub open spec fn spec_header_path_name(seg: Seq<char>) -> bool {
    ||| seg == "GrpHdr"@
    ||| seg == "MsgId"@
    ||| seg == "CreDtTm"@
    ||| seg == "NbOfTxs"@
    ||| seg == "CtrlSum"@
}

pub open spec fn spec_txn_path_name(seg: Seq<char>) -> bool {
    ||| seg == "CdtTrfTxInf"@
    ||| seg == "DrctDbtTxInf"@
    ||| seg == "TxDtls"@
    ||| seg == "Ntry"@
    ||| seg == "NtryDtls"@
}

pub open spec fn spec_record_type_from(path: Seq<Seq<char>>, i: int) -> Seq<char>
    decreases path.len() - i,
{
    if i < 0 || i >= path.len() {
        if path.len() <= 2 {
            "header"@
        } else {
            "data"@
        }
    } else if spec_header_path_name(path[i]) {
        "header"@
    } else if spec_txn_path_name(path[i]) {
        "transaction"@
    } else {
        spec_record_type_from(path, i + 1)
    }
}

/// The record kind derived from the enclosing path: a header-style or
/// transaction-style segment decides; otherwise shallow records are
/// headers and deep ones plain data.
pub open spec fn spec_determine_record_type(path: Seq<Seq<char>>) -> Seq<char> {
    spec_record_type_from(path, 0)
}

fn record_type_chars(path: &Vec<Vec<char>>) -> (r: String)
    ensures
        r@ == spec_determine_record_type(path.deep_view()),
{
    let ghost pm = path.deep_view();
    let mut i: usize = 0;
    while i < path.len()
        invariant
            i <= path@.len(),
            pm == path.deep_view(),
            pm.len() == path@.len(),
            forall|j: int| 0 <= j < pm.len() ==> pm[j] == #[trigger] path@[j]@,
            spec_record_type_from(pm, 0) == spec_record_type_from(pm, i as int),
        decreases path@.len() - i,
    {
        let seg = &path[i];
        if eq_str(seg, "GrpHdr") || eq_str(seg, "MsgId") || eq_str(seg, "CreDtTm") || eq_str(
            seg,
            "NbOfTxs",
        ) || eq_str(seg, "CtrlSum") {
            return String::from_str("header");
        }
        if eq_str(seg, "CdtTrfTxInf") || eq_str(seg, "DrctDbtTxInf") || eq_str(seg, "TxDtls")
            || eq_str(seg, "Ntry") || eq_str(seg, "NtryDtls") {
            return String::from_str("transaction");
        }
        i = i + 1;
    }
    if path.len() <= 2 {
        String::from_str("header")
    } else {
        String::from_str("data")
    }
}

/// Derives the record kind from an enclosing path.
pub fn determine_record_type(path: &Vec<String>) -> (r: String)
    ensures
        r@ == spec_determine_record_type(path.deep_view()),
{
    let mut chars_path: Vec<Vec<char>> = Vec::new();
    let mut i: usize = 0;
    proof {
        assert(chars_path.deep_view() =~= path.deep_view().take(0));
    }
    while i < path.len()
        invariant
            i <= path@.len(),
            path.deep_view().len() == path@.len(),
            forall|j: int| 0 <= j < path@.len() ==> path.deep_view()[j] == #[trigger] path@[j]@,
            chars_path.deep_view() == path.deep_view().take(i as int),
        decreases path@.len() - i,
    {
        let ghost pre = chars_path.deep_view();
        chars_path.push(to_chars(path[i].as_str()));
        i = i + 1;
        proof {
            assert(chars_path.deep_view() =~~= pre.push(path.deep_view()[i - 1]));
            assert(chars_path.deep_view() =~= path.deep_view().take(i as int));
        }
    }
    proof {
        assert(path.deep_view().take(path@.len() as int) =~= path.deep_view());
    }
    record_type_chars(&chars_path)
}

pub open spec fn mt_of_xmlns(v: Seq<char>) -> Option<Seq<char>> {
    if spec_contains(v, "pain.001"@) {
        Option::Some("pain.001 - Customer Credit Transfer Initiation"@)
    } else if spec_contains(v, "pain.008"@) {
        Option::Some("pain.008 - Customer Direct Debit Initiation"@)
    } else if spec_contains(v, "camt.052"@) {
        Option::Some("camt.052 - Bank to Customer Account Report"@)
    } else if spec_contains(v, "camt.053"@) {
        Option::Some("camt.053 - Bank to Customer Statement"@)
    } else if spec_contains(v, "pacs.008"@) {
        Option::Some("pacs.008 - FI to FI Customer Credit Transfer"@)
    } else {
        Option::None
    }
}

pub open spec fn mt_from_attrs(attrs: Seq<(Seq<char>, Seq<char>)>, i: int) -> Option<Seq<char>>
    decreases attrs.len() - i,
{
    if i < 0 || i >= attrs.len() {
        Option::None
    } else if attrs[i].0 == "xmlns"@ && mt_of_xmlns(attrs[i].1) is Some {
        mt_of_xmlns(attrs[i].1)
    } else {
        mt_from_attrs(attrs, i + 1)
    }
}

pub open spec fn mt_of_name(name: Seq<char>) -> Option<Seq<char>> {
    if name == "CstmrCdtTrfInitn"@ {
        Option::Some("pain.001 - Customer Credit Transfer Initiation"@)
    } else if name == "CstmrDrctDbtInitn"@ {
        Option::Some("pain.008 - Customer Direct Debit Initiation"@)
    } else if name == "BkToCstmrAcctRpt"@ {
        Option::Some("camt.052 - Bank to Customer Account Report"@)
    } else if name == "BkToCstmrStmt"@ {
        Option::Some("camt.053 - Bank to Customer Statement"@)
    } else if name == "FIToFICstmrCdtTrf"@ {
        Option::Some("pacs.008 - FI to FI Customer Credit Transfer"@)
    } else {
        Option::None
    }
}

/// The ISO 20022 message type read off a namespace-style attribute, else
/// off the element name itself.
pub open spec fn spec_detect_mt(name: Seq<char>, attrs: Seq<(Seq<char>, Seq<char>)>) -> Option<
    Seq<char>,
> {
    match mt_from_attrs(attrs, 0) {
        Option::Some(m) => Option::Some(m),
        Option::None => mt_of_name(name),
    }
}

fn detect_message_type(name: &Vec<char>, attrs: &Vec<(Vec<char>, Vec<char>)>) -> (r: Option<
    String,
>)
    ensures
        match r {
            Option::Some(m) => spec_detect_mt(
                name@,
                attrs@.map_values(|q: (Vec<char>, Vec<char>)| (q.0@, q.1@)),
            ) == Option::Some(m@),
            Option::None => spec_detect_mt(
                name@,
                attrs@.map_values(|q: (Vec<char>, Vec<char>)| (q.0@, q.1@)),
            ) is None,
        },
{
    let ghost am = attrs@.map_values(|q: (Vec<char>, Vec<char>)| (q.0@, q.1@));
    let mut i: usize = 0;
    while i < attrs.len()
        invariant
            i <= attrs@.len(),
            am == attrs@.map_values(|q: (Vec<char>, Vec<char>)| (q.0@, q.1@)),
            am.len() == attrs@.len(),
            mt_from_attrs(am, 0) == mt_from_attrs(am, i as int),
        decreases attrs@.len() - i,
    {
        let k = &attrs[i].0;
        let v = &attrs[i].1;
        proof {
            assert(am[i as int] == (attrs@[i as int].0@, attrs@[i as int].1@));
        }
        if eq_str(k, "xmlns") {
            if contains_str(v, "pain.001") {
                return Option::Some(
                    String::from_str("pain.001 - Customer Credit Transfer Initiation"),
                );
            }
            if contains_str(v, "pain.008") {
                return Option::Some(
                    String::from_str("pain.008 - Customer Direct Debit Initiation"),
                );
            }
            if contains_str(v, "camt.052") {
                return Option::Some(
                    String::from_str("camt.052 - Bank to Customer Account Report"),
                );
            }
            if contains_str(v, "camt.053") {
                return Option::Some(String::from_str("camt.053 - Bank to Customer Statement"));
            }
            if contains_str(v, "pacs.008") {
                return Option::Some(
                    String::from_str("pacs.008 - FI to FI Customer Credit Transfer"),
                );
            }
        }
        i = i + 1;
    }
    if eq_str(name, "CstmrCdtTrfInitn") {
        return Option::Some(String::from_str("pain.001 - Customer Credit Transfer Initiation"));
    }
    if eq_str(name, "CstmrDrctDbtInitn") {
        return Option::Some(String::from_str("pain.008 - Customer Direct Debit Initiation"));
    }
    if eq_str(name, "BkToCstmrAcctRpt") {
        return Option::Some(String::from_str("camt.052 - Bank to Customer Account Report"));
    }
    if eq_str(name, "BkToCstmrStmt") {
        return Option::Some(String::from_str("camt.053 - Bank to Customer Statement"));
    }
    if eq_str(name, "FIToFICstmrCdtTrf") {
        return Option::Some(String::from_str("pacs.008 - FI to FI Customer Credit Transfer"));
    }
    Option::None
}

} // verus!

verus! {

// ------------------------------------------------------------------
// The flattening fold over the event stream.
// ------------------------------------------------------------------

/// The flattener state: emitted records, observed header names, the path
/// stack, pending text, the accumulating fields, the remembered message
/// type, and the progress bookkeeping of the streaming variant.
#[verifier::ext_equal]
pub struct FlatState {
    pub records: Seq<RecordModel>,
    pub headers: Seq<Seq<char>>,
    pub path: Seq<Seq<char>>,
    pub text: Seq<char>,
    pub fields: Seq<FieldModel>,
    pub msg: Seq<char>,
    pub rec_idx: nat,
    pub pevs: Seq<ProgressModel>,
    pub last: nat,
}

pub open spec fn flat_init() -> FlatState {
    FlatState {
        records: Seq::empty(),
        headers: Seq::empty(),
        path: Seq::empty(),
        text: Seq::empty(),
        fields: Seq::empty(),
        msg: Seq::empty(),
        rec_idx: 0,
        pevs: Seq::empty(),
        last: 0,
    }
}

/// First-occurrence insertion into the header-name list.
pub open spec fn insert_header(hs: Seq<Seq<char>>, n: Seq<char>) -> Seq<Seq<char>> {
    if hs.contains(n) {
        hs
    } else {
        hs.push(n)
    }
}

/// An attribute field.
pub open spec fn spec_attr_field(idx: nat, fidx: nat, an: Seq<char>, av: Seq<char>) -> FieldModel {
    FieldModel {
        id: "attr-"@ + spec_dec(idx) + "-"@ + spec_dec(fidx),
        name: spec_humanize(an),
        value: ValueModel::VStr(av),
        ftype: "string"@,
        original: av,
        position: Option::None,
    }
}

/// A leaf-text field.
pub open spec fn spec_text_field(idx: nat, fidx: nat, name: Seq<char>, text: Seq<char>) -> FieldModel {
    FieldModel {
        id: "field-"@ + spec_dec(idx) + "-"@ + spec_dec(fidx),
        name: spec_humanize(name),
        value: spec_infer(text).0,
        ftype: spec_infer(text).1,
        original: text,
        position: Option::None,
    }
}

/// A flattened record.
pub open spec fn spec_xml_record(
    idx: nat,
    fields: Seq<FieldModel>,
    raw: Seq<char>,
    rtype: Seq<char>,
) -> RecordModel {
    RecordModel {
        id: "record-"@ + spec_dec(idx),
        index: idx,
        fields,
        raw,
        rtype,
        valid: true,
        errors: Option::None,
    }
}

/// Folds the attributes of a start tag into header names and fields.
pub open spec fn add_attrs(
    hs: Seq<Seq<char>>,
    fs: Seq<FieldModel>,
    idx: nat,
    pathdot: Seq<char>,
    attrs: Seq<(Seq<char>, Seq<char>)>,
) -> (Seq<Seq<char>>, Seq<FieldModel>)
    decreases attrs.len(),
{
    if attrs.len() == 0 {
        (hs, fs)
    } else {
        let r = add_attrs(hs, fs, idx, pathdot, attrs.drop_last());
        let an = attrs.last().0;
        let av = attrs.last().1;
        (
            insert_header(r.0, pathdot + seq!['[', '@'] + an + seq![']']),
            r.1.push(spec_attr_field(idx, r.1.len(), an, av)),
        )
    }
}

/// Entering an element: the path grows, a shallow element may classify the
/// message type (first success wins), and attributes become fields.
pub open spec fn flat_start(
    st: FlatState,
    name: Seq<char>,
    attrs: Seq<(Seq<char>, Seq<char>)>,
) -> FlatState {
    let path2 = st.path.push(name);
    let msg2 = if path2.len() <= 2 && st.msg.len() == 0 {
        match spec_detect_mt(name, attrs) {
            Option::Some(m) => m,
            Option::None => st.msg,
        }
    } else {
        st.msg
    };
    let hf = add_attrs(st.headers, st.fields, st.rec_idx, spec_join(path2, seq!['.']), attrs);
    FlatState { path: path2, msg: msg2, headers: hf.0, fields: hf.1, ..st }
}

/// Leaving an element: pending text becomes a field, a boundary element
/// flushes the accumulated fields as one record (reporting progress when
/// the byte position advanced enough), and the path shrinks.
pub open spec fn flat_end(st: FlatState, name: Seq<char>, p: int, s: Seq<char>, t: nat) -> FlatState {
    let st1 = if st.text.len() > 0 {
        FlatState {
            headers: insert_header(st.headers, spec_join(st.path, seq!['.'])),
            fields: st.fields.push(spec_text_field(st.rec_idx, st.fields.len(), name, st.text)),
            text: Seq::empty(),
            ..st
        }
    } else {
        st
    };
    let st2 = if spec_is_record_boundary(name, st1.path) && st1.fields.len() > 0 {
        let pos = spec_bpos(s, p);
        let emit = pos > st1.last + t / 100;
        FlatState {
            records: st1.records.push(
                spec_xml_record(
                    st1.rec_idx,
                    st1.fields,
                    spec_join(st1.path, seq!['/']),
                    spec_determine_record_type(st1.path),
                ),
            ),
            fields: Seq::empty(),
            rec_idx: st1.rec_idx + 1,
            pevs: if emit {
                st1.pevs.push(
                    spec_prog(
                        "parsing"@,
                        pos,
                        t,
                        st1.rec_idx + 1,
                        "Parsed "@ + spec_dec(st1.rec_idx + 1) + " records..."@,
                    ),
                )
            } else {
                st1.pevs
            },
            last: if emit {
                pos
            } else {
                st1.last
            },
            ..st1
        }
    } else {
        st1
    };
    FlatState { path: st2.path.drop_last(), ..st2 }
}

/// The whole fold: an error event, or an end tag that does not match the
/// enclosing element, aborts with its position.
pub open spec fn spec_flatten(
    s: Seq<char>,
    t: nat,
    evs: Seq<EventModel>,
    st: FlatState,
) -> Result<FlatState, int>
    decreases evs.len(),
{
    if evs.len() == 0 {
        Result::Ok(st)
    } else {
        match evs.first() {
            EventModel::EErr(p) => Result::Err(p),
            EventModel::EEnd(name, p) => {
                if st.path.len() == 0 || st.path.last() != name {
                    Result::Err(p)
                } else {
                    spec_flatten(s, t, evs.drop_first(), flat_end(st, name, p, s, t))
                }
            },
            EventModel::EStart(name, attrs, _) => {
                spec_flatten(s, t, evs.drop_first(), flat_start(st, name, attrs))
            },
            EventModel::EText(v) => {
                spec_flatten(s, t, evs.drop_first(), FlatState { text: v, ..st })
            },
        }
    }
}

/// The synthetic leading header record carrying the message type.
pub open spec fn spec_doc_header(msg: Seq<char>) -> RecordModel {
    RecordModel {
        id: "document-header"@,
        index: 0,
        fields: seq![
            FieldModel {
                id: "msg-type"@,
                name: "Message Type"@,
                value: ValueModel::VStr(msg),
                ftype: "string"@,
                original: Seq::empty(),
                position: Option::None,
            },
        ],
        raw: "Document"@,
        rtype: "header"@,
        valid: true,
        errors: Option::None,
    }
}

/// The result model of a finished flatten: the records (with the synthetic
/// header prepended when a message type was identified), the header names,
/// and the tallies, which count every emitted record, the synthetic header
/// included.
pub open spec fn spec_xml_final(st: FlatState, t: nat) -> DataModel {
    let records = if st.msg.len() > 0 {
        seq![spec_doc_header(st.msg)] + st.records
    } else {
        st.records
    };
    DataModel {
        id: "parsed-0"@,
        records,
        headers: Option::Some(st.headers),
        meta: MetaModel {
            total: records.len(),
            valid: records.len(),
            invalid: 0,
            parse_time: 0,
            file_size: Option::Some(t),
            file_name: Option::None,
            encoding: Option::None,
            engine: "wasm"@,
            chunks: Option::None,
        },
    }
}

/// The outcome of a hierarchical parse: the data model and progress
/// sequence, or the error message carrying the byte offset of the failure.
pub open spec fn spec_xml_outcome(s: Seq<char>) -> Result<(DataModel, Seq<ProgressModel>), Seq<char>> {
    let t = (vstd::utf8::encode_utf8(s).len() as usize) as nat;
    match spec_flatten(s, t, spec_events(s, 0), flat_init()) {
        Result::Err(p) => Result::Err(
            "Error at position "@ + spec_dec(spec_bpos(s, p)) + ": malformed markup"@,
        ),
        Result::Ok(st) => Result::Ok(
            (
                spec_xml_final(st, t),
                seq![spec_prog("initializing"@, 0, t, 0, "Starting XML parse..."@)] + st.pevs
                    + seq![spec_prog("complete"@, t, t, st.rec_idx, "XML parsing complete"@)],
            ),
        ),
    }
}

proof fn lemma_flatten_err_pos(s: Seq<char>, t: nat, evs: Seq<EventModel>, st: FlatState)
    requires
        forall|j: int| 0 <= j < evs.len() ==> event_pos_ok(s, #[trigger] evs[j]),
    ensures
        spec_flatten(s, t, evs, st) is Err ==> 0 <= spec_flatten(s, t, evs, st)->Err_0
            < s.len(),
    decreases evs.len(),
{
    if evs.len() > 0 {
        assert(event_pos_ok(s, evs[0]));
        assert(evs.first() == evs[0]);
        assert forall|j: int| 0 <= j < evs.drop_first().len() implies event_pos_ok(
            s,
            #[trigger] evs.drop_first()[j],
        ) by {
            assert(evs.drop_first()[j] == evs[j + 1]);
        }
        match evs.first() {
            EventModel::EErr(p) => {},
            EventModel::EEnd(name, p) => {
                if !(st.path.len() == 0 || st.path.last() != name) {
                    lemma_flatten_err_pos(s, t, evs.drop_first(), flat_end(st, name, p, s, t));
                }
            },
            EventModel::EStart(name, attrs, _) => {
                lemma_flatten_err_pos(s, t, evs.drop_first(), flat_start(st, name, attrs));
            },
            EventModel::EText(v) => {
                lemma_flatten_err_pos(s, t, evs.drop_first(), FlatState { text: v, ..st });
            },
        }
    }
}

/// Every positioned event of the stream points into the input.
pub open spec fn event_pos_ok(s: Seq<char>, e: EventModel) -> bool {
    match e {
        EventModel::EStart(_, _, p) => 0 <= p < s.len(),
        EventModel::EEnd(_, p) => 0 <= p < s.len(),
        EventModel::EErr(p) => 0 <= p < s.len(),
        EventModel::EText(_) => true,
    }
}

proof fn lemma_events_pos(s: Seq<char>, i: int)
    ensures
        forall|j: int|
            0 <= j < spec_events(s, i).len() ==> event_pos_ok(s, #[trigger] spec_events(s, i)[j]),
    decreases s.len() - i,
{
    if i < 0 || i >= s.len() {
    } else {
        let l0 = fc(s, i, '<');
        let l = if l0 > s.len() {
            s.len() as int
        } else if l0 < i {
            i
        } else {
            l0
        };
        if l >= s.len() {
        } else {
            let step = spec_construct(s, l);
            let nx0 = bump(l, step.1);
            let nx = if nx0 > s.len() {
                s.len() as int
            } else {
                nx0
            };
            lemma_events_pos(s, nx);
            let evs = spec_events(s, i);
            assert forall|j: int| 0 <= j < evs.len() implies event_pos_ok(s, #[trigger] evs[j])
                by {
                let rest = spec_events(s, nx);
                match step.0 {
                    Option::Some(e0) => {
                        if e0 is EErr {
                        } else {
                            let tev_len = evs.len() - 1 - rest.len();
                            if j < tev_len {
                            } else if j == tev_len {
                                assert(evs[j] == e0);
                            } else {
                                assert(evs[j] == rest[j - tev_len - 1]);
                            }
                        }
                    },
                    Option::None => {
                        let tev_len = evs.len() - rest.len();
                        if j < tev_len {
                        } else {
                            assert(evs[j] == rest[j - tev_len]);
                        }
                    },
                }
            }
        }
    }
}

} // verus!

verus! {

/// The executable flattener's result.
struct FlatOut {
    records: Vec<ParsedRecord>,
    headers: Vec<String>,
    msg: Vec<char>,
    rec_idx: usize,
    pevs: Vec<ParseProgress>,
}

/// Runs the flattening fold; progress reports are materialized only when
/// `emit` is set.
#[verifier::rlimit(100)]
fn run_flatten(v: &Vec<char>, total_bytes: usize, evs: &Vec<XmlEvent>, emit: bool) -> (r: Result<
    FlatOut,
    usize,
>)
    requires
        total_bytes as nat == (vstd::utf8::encode_utf8(v@).len() as usize) as nat,
        evs@.map_values(|e: XmlEvent| e.model()) == spec_events(v@, 0),
    ensures
        ({
            let out = spec_flatten(
                v@,
                total_bytes as nat,
                evs@.map_values(|e: XmlEvent| e.model()),
                flat_init(),
            );
            match r {
                Result::Ok(o) => out is Ok && {
                    let st = out->Ok_0;
                    &&& o.records@.map_values(|x: ParsedRecord| x.model()) == st.records
                    &&& o.headers.deep_view() == st.headers
                    &&& o.msg@ == st.msg
                    &&& o.rec_idx == st.rec_idx
                    &&& (emit ==> o.pevs@.map_values(|p: ParseProgress| p.model()) == st.pevs)
                },
                Result::Err(p) => out is Err && out->Err_0 == p as int,
            }
        }),
{
    let ghost t = total_bytes as nat;
    let ghost evsm = evs@.map_values(|e: XmlEvent| e.model());
    let ghost full = spec_flatten(v@, t, evsm, flat_init());
    let mut records: Vec<ParsedRecord> = Vec::new();
    let mut headers: Vec<String> = Vec::new();
    let mut path: Vec<Vec<char>> = Vec::new();
    let mut text: Vec<char> = Vec::new();
    let mut fields: Vec<ParsedField> = Vec::new();
    let mut msg: Vec<char> = Vec::new();
    let mut rec_idx: usize = 0;
    let mut pevs: Vec<ParseProgress> = Vec::new();
    let mut last: usize = 0;
    let interval = total_bytes / 100;
    let ghost mut stg = flat_init();
    let mut k: usize = 0;
    proof {
        assert(evsm.skip(0) =~= evsm);
        assert(records@.map_values(|x: ParsedRecord| x.model()) =~= stg.records);
        assert(headers.deep_view() =~= stg.headers);
        assert(path.deep_view() =~= stg.path);
        assert(fields@.map_values(|f: ParsedField| f.model()) =~= stg.fields);
        assert(pevs@.map_values(|p: ParseProgress| p.model()) =~= stg.pevs);
        lemma_events_pos(v@, 0);
    }
    while k < evs.len()
        invariant
            k <= evs@.len(),
            t == total_bytes as nat,
            total_bytes as nat == (vstd::utf8::encode_utf8(v@).len() as usize) as nat,
            interval == total_bytes / 100,
            evsm == evs@.map_values(|e: XmlEvent| e.model()),
            evsm.len() == evs@.len(),
            forall|j: int| 0 <= j < evsm.len() ==> event_pos_ok(v@, #[trigger] evsm[j]),
            full == spec_flatten(v@, t, evsm, flat_init()),
            spec_flatten(v@, t, evsm.skip(k as int), stg) == full,
            records@.map_values(|x: ParsedRecord| x.model()) == stg.records,
            headers.deep_view() == stg.headers,
            path.deep_view() == stg.path,
            text@ == stg.text,
            fields@.map_values(|f: ParsedField| f.model()) == stg.fields,
            msg@ == stg.msg,
            rec_idx == stg.rec_idx,
            rec_idx <= k,
            emit ==> pevs@.map_values(|p: ParseProgress| p.model()) == stg.pevs,
            emit ==> last as nat == stg.last,
            !emit ==> last == 0,
        decreases evs@.len() - k,
    {
        let ghost st0 = stg;
        proof {
            assert(evsm.skip(k as int).len() > 0);
            assert(evsm.skip(k as int).first() == evsm[k as int]);
            assert(evsm.skip(k as int).drop_first() =~= evsm.skip(k + 1));
            assert(evsm[k as int] == evs@[k as int].model());
        }
        match &evs[k] {
            XmlEvent::Fail(p) => {
                proof {
                    assert(spec_flatten(v@, t, evsm.skip(k as int), stg) == Result::<
                        FlatState,
                        int,
                    >::Err(*p as int));
                }
                return Result::Err(*p);
            },
            XmlEvent::Text(val) => {
                text = copy_chars(val);
                proof {
                    stg = FlatState { text: val@, ..st0 };
                }
            },
            XmlEvent::Start(name, attrs, _pos) => {
                let ghost namem = name@;
                let ghost attrsm = attrs@.map_values(|q: (Vec<char>, Vec<char>)| (q.0@, q.1@));
                path.push(copy_chars(name));
                proof {
                    assert(path.deep_view() =~~= st0.path.push(namem));
                }
                if path.len() <= 2 && msg.len() == 0 {
                    match detect_message_type(name, attrs) {
                        Option::Some(m) => {
                            msg = to_chars(m.as_str());
                        },
                        Option::None => {},
                    }
                }
                let dotv: Vec<char> = vec!['.'];
                let pj = join_chars(&path, &dotv);
                let ghost pathdot = spec_join(st0.path.push(namem), seq!['.']);
                proof {
                    assert(dotv@ =~= seq!['.']);
                    assert(pj@ == pathdot);
                }
                let ghost hs0 = headers.deep_view();
                let ghost fs0 = fields@.map_values(|f: ParsedField| f.model());
                let mut j: usize = 0;
                proof {
                    assert(attrsm.take(0) =~= Seq::<(Seq<char>, Seq<char>)>::empty());
                    assert(add_attrs(hs0, fs0, rec_idx as nat, pathdot, attrsm.take(0)) == (
                    hs0,
                    fs0,
                    ));
                }
                while j < attrs.len()
                    invariant
                        j <= attrs@.len(),
                        attrsm == attrs@.map_values(|q: (Vec<char>, Vec<char>)| (q.0@, q.1@)),
                        attrsm.len() == attrs@.len(),
                        pj@ == pathdot,
                        rec_idx <= evs@.len(),
                        headers.deep_view() == add_attrs(
                            hs0,
                            fs0,
                            rec_idx as nat,
                            pathdot,
                            attrsm.take(j as int),
                        ).0,
                        fields@.map_values(|f: ParsedField| f.model()) == add_attrs(
                            hs0,
                            fs0,
                            rec_idx as nat,
                            pathdot,
                            attrsm.take(j as int),
                        ).1,
                    decreases attrs@.len() - j,
                {
                    let ghost pre = add_attrs(hs0, fs0, rec_idx as nat, pathdot, attrsm.take(
                        j as int,
                    ));
                    let an = &attrs[j].0;
                    let av = &attrs[j].1;
                    proof {
                        assert(attrsm[j as int] == (attrs@[j as int].0@, attrs@[j as int].1@));
                    }
                    let mut hn = copy_chars(&pj);
                    hn.push('[');
                    hn.push('@');
                    let mut x: usize = 0;
                    while x < an.len()
                        invariant
                            x <= an@.len(),
                            hn@ == pj@ + seq!['[', '@'] + an@.take(x as int),
                        decreases an@.len() - x,
                    {
                        hn.push(an[x]);
                        x = x + 1;
                        proof {
                            assert(hn@ =~= pj@ + seq!['[', '@'] + an@.take(x as int));
                        }
                    }
                    hn.push(']');
                    proof {
                        assert(an@.take(an@.len() as int) =~= an@);
                        assert(hn@ =~= pathdot + seq!['[', '@'] + an@ + seq![']']);
                    }
                    let hname = from_chars(&hn);
                    insert_name(&mut headers, &hname);
                    let afield = ParsedField {
                        id: String::from_str("attr-").concat(
                            dec_u64(rec_idx as u64).as_str(),
                        ).concat("-").concat(dec_u64(fields.len() as u64).as_str()),
                        name: humanize_chars(an),
                        value: FieldValue::String(from_chars(av)),
                        field_type: String::from_str("string"),
                        original_value: from_chars(av),
                        position: Option::None,
                    };
                    let ghost fm = afield.model();
                    let ghost fsp = fields@.map_values(|f: ParsedField| f.model());
                    fields.push(afield);
                    j = j + 1;
                    proof {
                        assert(attrsm.take(j as int).drop_last() =~= attrsm.take(j - 1));
                        assert(attrsm.take(j as int).last() == attrsm[j - 1]);
                        assert(fm == spec_attr_field(
                            rec_idx as nat,
                            fsp.len(),
                            attrsm[j - 1].0,
                            attrsm[j - 1].1,
                        ));
                        assert(fields@.map_values(|f: ParsedField| f.model()) =~= fsp.push(fm));
                        assert(fields@.map_values(|f: ParsedField| f.model()) == add_attrs(
                            hs0,
                            fs0,
                            rec_idx as nat,
                            pathdot,
                            attrsm.take(j as int),
                        ).1);
                    }
                }
                proof {
                    assert(attrsm.take(attrs@.len() as int) =~= attrsm);
                    stg = flat_start(st0, namem, attrsm);
                    assert(headers.deep_view() == stg.headers);
                    assert(fields@.map_values(|f: ParsedField| f.model()) == stg.fields);
                    assert(msg@ == stg.msg);
                    assert(path.deep_view() == stg.path);
                }
            },
            XmlEvent::End(name, pos) => {
                let ghost namem = name@;
                let ghost p = *pos as int;
                if path.len() == 0 {
                    proof {
                        assert(spec_flatten(v@, t, evsm.skip(k as int), stg) == Result::<
                            FlatState,
                            int,
                        >::Err(p));
                    }
                    return Result::Err(*pos);
                }
                let top_matches = eq_chars(&path[path.len() - 1], name);
                proof {
                    assert(path.deep_view().last() == path@[path@.len() - 1]@);
                }
                if !top_matches {
                    proof {
                        assert(stg.path.last() != namem);
                        assert(spec_flatten(v@, t, evsm.skip(k as int), stg) == Result::<
                            FlatState,
                            int,
                        >::Err(p));
                    }
                    return Result::Err(*pos);
                }
                // pending text becomes a field
                let ghost st1 = if st0.text.len() > 0 {
                    FlatState {
                        headers: insert_header(st0.headers, spec_join(st0.path, seq!['.'])),
                        fields: st0.fields.push(
                            spec_text_field(st0.rec_idx, st0.fields.len(), namem, st0.text),
                        ),
                        text: Seq::empty(),
                        ..st0
                    }
                } else {
                    st0
                };
                if text.len() > 0 {
                    let dotv: Vec<char> = vec!['.'];
                    let fp = join_chars(&path, &dotv);
                    proof {
                        assert(dotv@ =~= seq!['.']);
                    }
                    let fpname = from_chars(&fp);
                    insert_name(&mut headers, &fpname);
                    let (fv, ft) = infer_chars(&text);
                    let tfield = ParsedField {
                        id: String::from_str("field-").concat(
                            dec_u64(rec_idx as u64).as_str(),
                        ).concat("-").concat(dec_u64(fields.len() as u64).as_str()),
                        name: humanize_chars(name),
                        value: fv,
                        field_type: ft,
                        original_value: from_chars(&text),
                        position: Option::None,
                    };
                    let ghost fm = tfield.model();
                    let ghost fsp = fields@.map_values(|f: ParsedField| f.model());
                    fields.push(tfield);
                    text = Vec::new();
                    proof {
                        assert(fm == spec_text_field(st0.rec_idx, fsp.len(), namem, st0.text));
                        assert(fields@.map_values(|f: ParsedField| f.model()) =~= fsp.push(fm));
                        assert(text@ =~= Seq::<char>::empty());
                        assert(headers.deep_view() == st1.headers);
                        assert(fields@.map_values(|f: ParsedField| f.model()) == st1.fields);
                    }
                }
                // a boundary element seals the accumulated fields
                let boundary = boundary_chars(name, path.len());
                let ghost pos_b = spec_bpos(v@, p);
                let ghost do_emit = pos_b > st1.last + t / 100;
                let ghost st2 = if spec_is_record_boundary(namem, st1.path) && st1.fields.len()
                    > 0 {
                    FlatState {
                        records: st1.records.push(
                            spec_xml_record(
                                st1.rec_idx,
                                st1.fields,
                                spec_join(st1.path, seq!['/']),
                                spec_determine_record_type(st1.path),
                            ),
                        ),
                        fields: Seq::empty(),
                        rec_idx: st1.rec_idx + 1,
                        pevs: if do_emit {
                            st1.pevs.push(
                                spec_prog(
                                    "parsing"@,
                                    pos_b,
                                    t,
                                    st1.rec_idx + 1,
                                    "Parsed "@ + spec_dec(st1.rec_idx + 1) + " records..."@,
                                ),
                            )
                        } else {
                            st1.pevs
                        },
                        last: if do_emit {
                            pos_b
                        } else {
                            st1.last
                        },
                        ..st1
                    }
                } else {
                    st1
                };
                if boundary && fields.len() > 0 {
                    let slashv: Vec<char> = vec!['/'];
                    let rawj = join_chars(&path, &slashv);
                    proof {
                        assert(slashv@ =~= seq!['/']);
                    }
                    let rtype = record_type_chars(&path);
                    let rec = ParsedRecord {
                        id: String::from_str("record-").concat(dec_u64(rec_idx as u64).as_str()),
                        index: rec_idx,
                        fields,
                        raw: from_chars(&rawj),
                        record_type: rtype,
                        is_valid: true,
                        errors: Option::None,
                    };
                    let ghost rm = rec.model();
                    let ghost rsp = records@.map_values(|x: ParsedRecord| x.model());
                    records.push(rec);
                    fields = Vec::new();
                    rec_idx = rec_idx + 1;
                    proof {
                        assert(rm == spec_xml_record(
                            st1.rec_idx,
                            st1.fields,
                            spec_join(st1.path, seq!['/']),
                            spec_determine_record_type(st1.path),
                        ));
                        assert(records@.map_values(|x: ParsedRecord| x.model()) =~= rsp.push(
                            rm,
                        ));
                        assert(fields@.map_values(|f: ParsedField| f.model()) =~= Seq::<
                            FieldModel,
                        >::empty());
                    }
                    if emit {
                        let bp = prefix_bytes(v, *pos);
                        proof {
                            assert(bp as nat == pos_b);
                        }
                        let cond = (bp as u128) > (last as u128) + (interval as u128);
                        proof {
                            assert(cond == do_emit);
                        }
                        if cond {
                            let m2 = String::from_str("Parsed ").concat(
                                dec_u64(rec_idx as u64).as_str(),
                            ).concat(" records...");
                            let pev = ParseProgress::new("parsing", bp, total_bytes, rec_idx)
                                .with_message(m2.as_str());
                            let ghost pvp = pevs@.map_values(|q: ParseProgress| q.model());
                            proof {
                                assert(pev.model() =~= spec_prog(
                                    "parsing"@,
                                    pos_b,
                                    t,
                                    st1.rec_idx + 1,
                                    "Parsed "@ + spec_dec(st1.rec_idx + 1) + " records..."@,
                                ));
                            }
                            pevs.push(pev);
                            last = bp;
                            proof {
                                assert(pevs@.map_values(|q: ParseProgress| q.model())
                                    =~= pvp.push(
                                    spec_prog(
                                        "parsing"@,
                                        pos_b,
                                        t,
                                        st1.rec_idx + 1,
                                        "Parsed "@ + spec_dec(st1.rec_idx + 1) + " records..."@,
                                    ),
                                ));
                            }
                        }
                    }
                }
                path.pop();
                proof {
                    stg = flat_end(st0, namem, p, v@, t);
                    assert(stg == (FlatState { path: st2.path.drop_last(), ..st2 }));
                    assert(path.deep_view() =~= stg.path);
                    assert(records@.map_values(|x: ParsedRecord| x.model()) == stg.records);
                    assert(headers.deep_view() == stg.headers);
                    assert(fields@.map_values(|f: ParsedField| f.model()) == stg.fields);
                    if emit {
                        assert(pevs@.map_values(|q: ParseProgress| q.model()) == stg.pevs);
                        assert(last as nat == stg.last);
                    }
                }
            },
        }
        k = k + 1;
    }
    proof {
        assert(evsm.skip(evs@.len() as int) =~= Seq::<EventModel>::empty());
        assert(spec_flatten(v@, t, evsm.skip(evs@.len() as int), stg) == Result::<
            FlatState,
            int,
        >::Ok(stg));
    }
    Result::Ok(FlatOut { records, headers, msg, rec_idx, pevs })
}

} // verus!

verus! {

/// Parses a nested-element (ISO 20022) document. A structural failure
/// aborts the whole parse with an error carrying the byte offset of the
/// failure; no partial document is returned.
#[verifier::rlimit(100)]
pub fn parse_xml(data: &str, config: &ParserConfig) -> (r: Result<ParsedData, ParseError>)
    ensures
        r is Ok <==> spec_xml_outcome(data@) is Ok,
        r is Ok ==> r->Ok_0.model() == spec_xml_outcome(data@)->Ok_0.0,
        r is Ok ==> config_equiv(&r->Ok_0.config, config),
        r is Ok ==> r->Ok_0.metadata.consistent(),
        r is Err ==> r->Err_0 is XmlError && r->Err_0->XmlError_0@ == spec_xml_outcome(
            data@,
        )->Err_0,
{
    let v = to_chars(data);
    let total_bytes = data.len();
    let evs = scan_events(&v);
    match run_flatten(&v, total_bytes, &evs, false) {
        Result::Ok(out) => {
            let ghost st = spec_flatten(
                v@,
                total_bytes as nat,
                evs@.map_values(|e: XmlEvent| e.model()),
                flat_init(),
            )->Ok_0;
            let FlatOut { mut records, headers, msg, rec_idx, pevs: _pevs } = out;
            let ghost recs0 = records@.map_values(|x: ParsedRecord| x.model());
            if msg.len() > 0 {
                let mut mfields: Vec<ParsedField> = Vec::new();
                mfields.push(
                    ParsedField {
                        id: String::from_str("msg-type"),
                        name: String::from_str("Message Type"),
                        value: FieldValue::String(from_chars(&msg)),
                        field_type: String::from_str("string"),
                        original_value: String::new(),
                        position: Option::None,
                    },
                );
                let hdr = ParsedRecord {
                    id: String::from_str("document-header"),
                    index: 0,
                    fields: mfields,
                    raw: String::from_str("Document"),
                    record_type: String::from_str("header"),
                    is_valid: true,
                    errors: Option::None,
                };
                proof {
                    assert(hdr.model().fields =~= spec_doc_header(st.msg).fields);
                    assert(hdr.model() =~= spec_doc_header(st.msg));
                }
                records.insert(0, hdr);
                proof {
                    assert(records@.map_values(|x: ParsedRecord| x.model()) =~= seq![
                        spec_doc_header(st.msg),
                    ] + recs0);
                }
            }
            let record_count = records.len();
            let metadata = ParseMetadata {
                total_records: record_count,
                valid_records: record_count,
                invalid_records: 0,
                parse_time: 0,
                file_size: Option::Some(total_bytes),
                file_name: Option::None,
                encoding: Option::None,
                parser_engine: String::from_str("wasm"),
                chunks_processed: Option::None,
            };
            let result = ParsedData {
                id: String::from_str("parsed-0"),
                config: config.duplicate(),
                records,
                headers: Option::Some(headers),
                metadata,
            };
            proof {
                let m = result.model();
                let sm = spec_xml_outcome(data@)->Ok_0.0;
                assert(m.records =~= sm.records);
                assert(m.meta =~= sm.meta);
                assert(m =~= sm);
            }
            Result::Ok(result)
        },
        Result::Err(p) => {
            proof {
                lemma_events_pos(v@, 0);
                lemma_flatten_err_pos(
                    v@,
                    total_bytes as nat,
                    evs@.map_values(|e: XmlEvent| e.model()),
                    flat_init(),
                );
            }
            let bp = prefix_bytes(&v, p);
            let m = String::from_str("Error at position ").concat(
                dec_u64(bp as u64).as_str(),
            ).concat(": malformed markup");
            proof {
                assert(m@ =~= spec_xml_outcome(data@)->Err_0);
            }
            Result::Err(ParseError::XmlError(m))
        },
    }
}

/// Parses a nested-element document, reporting progress as a finite event
/// sequence using exact stream byte offsets.
#[verifier::rlimit(100)]
pub fn parse_xml_with_progress(data: &str, config: &ParserConfig) -> (r: Result<
    (ParsedData, Vec<ParseProgress>),
    ParseError,
>)
    ensures
        r is Ok <==> spec_xml_outcome(data@) is Ok,
        r is Ok ==> r->Ok_0.0.model() == spec_xml_outcome(data@)->Ok_0.0,
        r is Ok ==> r->Ok_0.1@.map_values(|p: ParseProgress| p.model()) == spec_xml_outcome(
            data@,
        )->Ok_0.1,
        r is Ok ==> config_equiv(&r->Ok_0.0.config, config),
        r is Ok ==> r->Ok_0.0.metadata.consistent(),
        r is Err ==> r->Err_0 is XmlError && r->Err_0->XmlError_0@ == spec_xml_outcome(
            data@,
        )->Err_0,
{
    let v = to_chars(data);
    let total_bytes = data.len();
    let ghost t = total_bytes as nat;
    let evs = scan_events(&v);
    match run_flatten(&v, total_bytes, &evs, true) {
        Result::Ok(out) => {
            let ghost st = spec_flatten(
                v@,
                total_bytes as nat,
                evs@.map_values(|e: XmlEvent| e.model()),
                flat_init(),
            )->Ok_0;
            let FlatOut { mut records, headers, msg, rec_idx, pevs } = out;
            let mut events: Vec<ParseProgress> = Vec::new();
            events.push(
                ParseProgress::new("initializing", 0, total_bytes, 0).with_message(
                    "Starting XML parse...",
                ),
            );
            proof {
                assert(events@.map_values(|p: ParseProgress| p.model()) =~= seq![
                    spec_prog("initializing"@, 0, t, 0, "Starting XML parse..."@),
                ]);
            }
            let ghost evs0 = events@.map_values(|p: ParseProgress| p.model());
            let mut middle = pevs;
            events.append(&mut middle);
            proof {
                assert(events@.map_values(|p: ParseProgress| p.model()) =~= evs0 + st.pevs);
            }
            let ghost evs1 = events@.map_values(|p: ParseProgress| p.model());
            let pc = ParseProgress::new("complete", total_bytes, total_bytes, rec_idx)
                .with_message("XML parsing complete");
            proof {
                assert(pc.model() =~= spec_prog(
                    "complete"@,
                    t,
                    t,
                    st.rec_idx,
                    "XML parsing complete"@,
                ));
            }
            events.push(pc);
            proof {
                assert(events@.map_values(|p: ParseProgress| p.model()) =~= evs1 + seq![
                    spec_prog("complete"@, t, t, st.rec_idx, "XML parsing complete"@),
                ]);
                assert(events@.map_values(|p: ParseProgress| p.model()) =~= spec_xml_outcome(
                    data@,
                )->Ok_0.1);
            }
            let ghost recs0 = records@.map_values(|x: ParsedRecord| x.model());
            if msg.len() > 0 {
                let mut mfields: Vec<ParsedField> = Vec::new();
                mfields.push(
                    ParsedField {
                        id: String::from_str("msg-type"),
                        name: String::from_str("Message Type"),
                        value: FieldValue::String(from_chars(&msg)),
                        field_type: String::from_str("string"),
                        original_value: String::new(),
                        position: Option::None,
                    },
                );
                let hdr = ParsedRecord {
                    id: String::from_str("document-header"),
                    index: 0,
                    fields: mfields,
                    raw: String::from_str("Document"),
                    record_type: String::from_str("header"),
                    is_valid: true,
                    errors: Option::None,
                };
                proof {
                    assert(hdr.model().fields =~= spec_doc_header(st.msg).fields);
                    assert(hdr.model() =~= spec_doc_header(st.msg));
                }
                records.insert(0, hdr);
                proof {
                    assert(records@.map_values(|x: ParsedRecord| x.model()) =~= seq![
                        spec_doc_header(st.msg),
                    ] + recs0);
                }
            }
            let record_count = records.len();
            let metadata = ParseMetadata {
                total_records: record_count,
                valid_records: record_count,
                invalid_records: 0,
                parse_time: 0,
                file_size: Option::Some(total_bytes),
                file_name: Option::None,
                encoding: Option::None,
                parser_engine: String::from_str("wasm"),
                chunks_processed: Option::None,
            };
            let result = ParsedData {
                id: String::from_str("parsed-0"),
                config: config.duplicate(),
                records,
                headers: Option::Some(headers),
                metadata,
            };
            proof {
                let m = result.model();
                let sm = spec_xml_outcome(data@)->Ok_0.0;
                assert(m.meta =~= sm.meta);
                assert(m =~= sm);
            }
            Result::Ok((result, events))
        },
        Result::Err(p) => {
            proof {
                lemma_events_pos(v@, 0);
                lemma_flatten_err_pos(
                    v@,
                    total_bytes as nat,
                    evs@.map_values(|e: XmlEvent| e.model()),
                    flat_init(),
                );
            }
            let bp = prefix_bytes(&v, p);
            let m = String::from_str("Error at position ").concat(
                dec_u64(bp as u64).as_str(),
            ).concat(": malformed markup");
            proof {
                assert(m@ =~= spec_xml_outcome(data@)->Err_0);
            }
            Result::Err(ParseError::XmlError(m))
        },
    }
}

} // verus!
