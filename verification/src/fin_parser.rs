//! Fixed-grammar block extractor for SWIFT FIN messages.
//!
//! A message is a sequence of braced blocks `{N:content}`; block 4 has an
//! alternate multi-line closing form (`{4:` followed by newline-delimited
//! content terminated by `-}`) used as a fallback. Absent blocks are simply
//! skipped and malformed content is never flagged invalid.

use vstd::prelude::*;
use crate::chars::{
    spec_dec, dec_u64, spec_trim, trim_chars, is_ws, is_ws_ch, to_chars, from_chars, eq_str,
    sub_chars,
};
use crate::infer::{is_digit, is_digit_ch};
use crate::types::{FieldModel, ValueModel, RecordModel, DataModel, MetaModel, ParsedField, FieldValue, Position, ParsedRecord, ParsedData, ParseMetadata, ParserConfig, ParseError, config_equiv};

verus! {

// ------------------------------------------------------------------
// Top-level brace scan: `{d:content}` segments, content up to the first
// closing brace, found left to right.
// ------------------------------------------------------------------

/// Index of the first `}` at or after `from`, or the length when none is
/// left.
pub open spec fn next_close(s: Seq<char>, from: int) -> int
    decreases s.len() - from,
{
    if from < 0 || from >= s.len() {
        s.len() as int
    } else if s[from] == '}' {
        from
    } else {
        next_close(s, from + 1)
    }
}

/// Whether a one-digit braced segment starts at `i`.
pub open spec fn block_match_at(s: Seq<char>, i: int) -> bool {
    &&& 0 <= i
    &&& i + 3 <= s.len()
    &&& s[i] == '{'
    &&& is_digit(s[i + 1])
    &&& s[i + 2] == ':'
    &&& next_close(s, i + 3) < s.len()
}

/// The `(block digit, content)` pairs of the braced segments of `s`, in
/// match order.
pub open spec fn spec_block_pairs(s: Seq<char>, i: int) -> Seq<(char, Seq<char>)>
    decreases s.len() - i, 1int,
{
    if i < 0 || i >= s.len() {
        Seq::empty()
    } else if block_match_at(s, i) {
        let j = next_close(s, i + 3);
        seq![(s[i + 1], s.subrange(i + 3, j))] + spec_block_pairs_cont(s, i, j)
    } else {
        spec_block_pairs(s, i + 1)
    }
}

/// Continuation after a match at `i` closing at `j` (split out so the
/// recursion visibly shrinks).
pub open spec fn spec_block_pairs_cont(s: Seq<char>, i: int, j: int) -> Seq<(char, Seq<char>)>
    decreases s.len() - i, 0int,
{
    if i + 3 <= j < s.len() {
        spec_block_pairs(s, j + 1)
    } else {
        Seq::empty()
    }
}

/// The content of the last pair carrying `d`, if any.
pub open spec fn last_with(pairs: Seq<(char, Seq<char>)>, d: char) -> Option<Seq<char>>
    decreases pairs.len(),
{
    if pairs.len() == 0 {
        Option::None
    } else if pairs.last().0 == d {
        Option::Some(pairs.last().1)
    } else {
        last_with(pairs.drop_last(), d)
    }
}

proof fn lemma_next_close_ge(s: Seq<char>, from: int)
    requires
        0 <= from <= s.len(),
    ensures
        next_close(s, from) >= from,
        next_close(s, from) <= s.len(),
        next_close(s, from) < s.len() ==> s[next_close(s, from)] == '}',
        forall|k: int| from <= k < next_close(s, from) ==> s[k] != '}',
    decreases s.len() - from,
{
    if from < s.len() && s[from] != '}' {
        lemma_next_close_ge(s, from + 1);
    }
}

proof fn lemma_pairs_digit_keys(s: Seq<char>, i: int)
    ensures
        forall|k: int|
            0 <= k < spec_block_pairs(s, i).len() ==> is_digit(
                #[trigger] spec_block_pairs(s, i)[k].0,
            ),
    decreases s.len() - i,
{
    if i < 0 || i >= s.len() {
    } else if block_match_at(s, i) {
        let j = next_close(s, i + 3);
        lemma_next_close_ge(s, i + 3);
        lemma_pairs_digit_keys(s, j + 1);
        assert(spec_block_pairs_cont(s, i, j) == spec_block_pairs(s, j + 1));
        let rest = spec_block_pairs(s, j + 1);
        let ps = spec_block_pairs(s, i);
        assert(ps == seq![(s[i + 1], s.subrange(i + 3, j))] + rest);
        assert forall|k: int| 0 <= k < ps.len() implies is_digit(#[trigger] ps[k].0) by {
            if k == 0 {
                assert(ps[0].0 == s[i + 1]);
            } else {
                assert(ps[k] == rest[k - 1]);
            }
        }
    } else {
        lemma_pairs_digit_keys(s, i + 1);
        let ps = spec_block_pairs(s, i);
        assert(ps == spec_block_pairs(s, i + 1));
        assert forall|k: int| 0 <= k < ps.len() implies is_digit(#[trigger] ps[k].0) by {
            assert(ps[k] == spec_block_pairs(s, i + 1)[k]);
        }
    }
}

proof fn lemma_char_code(a: char, b: char)
    requires
        a as u32 == b as u32,
    ensures
        a == b,
{
}

proof fn lemma_last_with_none(pairs: Seq<(char, Seq<char>)>, d: char)
    requires
        forall|k: int| 0 <= k < pairs.len() ==> is_digit(#[trigger] pairs[k].0),
        !is_digit(d),
    ensures
        last_with(pairs, d) is None,
    decreases pairs.len(),
{
    if pairs.len() > 0 {
        assert(is_digit(pairs[pairs.len() - 1].0));
        lemma_last_with_none(pairs.drop_last(), d);
    }
}

/// Finds the first `}` at or after `from`.
fn find_close(v: &Vec<char>, from: usize) -> (r: usize)
    requires
        from <= v@.len(),
    ensures
        r == next_close(v@, from as int),
        from <= r <= v@.len(),
    decreases v@.len() - from,
{
    let mut i: usize = from;
    while i < v.len() && v[i] != '}'
        invariant
            from <= i <= v@.len(),
            next_close(v@, from as int) == next_close(v@, i as int),
        decreases v@.len() - i,
    {
        i = i + 1;
    }
    i
}

// ------------------------------------------------------------------
// The alternate multi-line form of block 4: `{4:` then whitespace holding
// at least one newline, content from just after the last newline of that
// whitespace run up to the first `-}`.
// ------------------------------------------------------------------

/// End of the whitespace run starting at `from`.
pub open spec fn ws_run_end(s: Seq<char>, from: int) -> int
    decreases s.len() - from,
{
    if from < 0 || from >= s.len() {
        s.len() as int
    } else if is_ws(s[from]) {
        ws_run_end(s, from + 1)
    } else {
        from
    }
}

/// The last newline index in `[from, end)`, or -1 when there is none.
pub open spec fn last_nl_before(s: Seq<char>, from: int, end: int) -> int
    decreases end - from,
{
    if end <= from || end < 1 {
        -1
    } else if 0 <= end - 1 < s.len() && s[end - 1] == '\n' {
        end - 1
    } else {
        last_nl_before(s, from, end - 1)
    }
}

/// Index of the first `-}` at or after `from`, or the length when none is
/// left.
pub open spec fn next_dash_close(s: Seq<char>, from: int) -> int
    decreases s.len() - from,
{
    if from < 0 || from + 1 >= s.len() {
        s.len() as int
    } else if s[from] == '-' && s[from + 1] == '}' {
        from
    } else {
        next_dash_close(s, from + 1)
    }
}

/// The alternate-form content of block 4 found at `i`, if the form matches
/// there.
pub open spec fn alt4_match_at(s: Seq<char>, i: int) -> Option<Seq<char>> {
    if 0 <= i && i + 3 <= s.len() && s.subrange(i, i + 3) == "{4:"@ {
        let w = ws_run_end(s, i + 3);
        let q = last_nl_before(s, i + 3, w);
        if q >= 0 {
            let m = next_dash_close(s, q + 1);
            if m < s.len() {
                Option::Some(s.subrange(q + 1, m))
            } else {
                Option::None
            }
        } else {
            Option::None
        }
    } else {
        Option::None
    }
}

/// The leftmost alternate-form match in `s` from `i` on.
pub open spec fn spec_alt4(s: Seq<char>, i: int) -> Option<Seq<char>>
    decreases s.len() - i,
{
    if i < 0 || i >= s.len() {
        Option::None
    } else if alt4_match_at(s, i) is Some {
        alt4_match_at(s, i)
    } else {
        spec_alt4(s, i + 1)
    }
}

/// The block table of a raw message: for each block digit the content of
/// its last braced segment, with the alternate form as a fallback for
/// block 4.
pub open spec fn spec_block_of(s: Seq<char>, d: char) -> Option<Seq<char>> {
    let direct = last_with(spec_block_pairs(s, 0), d);
    if d == '4' && direct is None {
        spec_alt4(s, 0)
    } else {
        direct
    }
}

/// The blocks of a message, numbered by their single digit.
pub struct Blocks {
    slots: Vec<Option<String>>,
}

impl Blocks {
    /// Slot `d` holds the content of block digit `'0' + d`.
    pub closed spec fn wf(&self) -> bool {
        self.slots@.len() == 10
    }

    pub closed spec fn spec_get(&self, d: char) -> Option<Seq<char>> {
        if is_digit(d) {
            match self.slots@[d as u32 - 48] {
                Option::None => Option::None,
                Option::Some(s) => Option::Some(s@),
            }
        } else {
            Option::None
        }
    }

    /// Looks a block up by its digit given as text.
    pub fn get(&self, key: &str) -> (r: Option<&String>)
        requires
            self.wf(),
        ensures
            match r {
                Option::Some(s) => key@.len() == 1 && self.spec_get(key@[0]) == Option::Some(s@),
                Option::None => !(key@.len() == 1 && self.spec_get(key@[0]) is Some),
            },
    {
        if key.unicode_len() != 1 {
            return Option::None;
        }
        let c = key.get_char(0);
        let u = c as u32;
        if !(48 <= u && u <= 57) {
            return Option::None;
        }
        let idx = (u - 48) as usize;
        match &self.slots[idx] {
            Option::Some(s) => Option::Some(s),
            Option::None => Option::None,
        }
    }

    /// True when the message carried the block named by `key`.
    pub fn contains_key(&self, key: &str) -> (r: bool)
        requires
            self.wf(),
        ensures
            r == (key@.len() == 1 && self.spec_get(key@[0]) is Some),
    {
        match self.get(key) {
            Option::Some(_) => true,
            Option::None => false,
        }
    }
}

/// Scans the message for its braced blocks.
pub fn parse_blocks(data: &str) -> (r: Blocks)
    ensures
        r.wf(),
        forall|d: char| #[trigger] r.spec_get(d) == spec_block_of(data@, d),
{
    let v = to_chars(data);
    let mut slots: Vec<Option<String>> = Vec::new();
    let mut k: usize = 0;
    while k < 10
        invariant
            k <= 10,
            slots@.len() == k,
            forall|j: int| 0 <= j < k ==> slots@[j] is None,
        decreases 10 - k,
    {
        slots.push(Option::None);
        k = k + 1;
    }
    let ghost all = spec_block_pairs(v@, 0);
    let mut i: usize = 0;
    let ghost mut acc: Seq<(char, Seq<char>)> = Seq::empty();
    proof {
        assert(acc + spec_block_pairs(v@, 0) =~= all);
        assert forall|d: char| is_digit(d) implies last_with(acc, d) is None by {}
    }
    while i < v.len()
        invariant
            i <= v@.len(),
            slots@.len() == 10,
            acc + spec_block_pairs(v@, i as int) =~= all,
            all == spec_block_pairs(v@, 0),
            forall|d: char|
                is_digit(d) ==> #[trigger] last_with(acc, d) == (match slots@[d as u32 - 48] {
                    Option::None => Option::None::<Seq<char>>,
                    Option::Some(s) => Option::Some(s@),
                }),
        decreases v@.len() - i,
    {
        let ghost acc0 = acc;
        let n = v.len();
        let mut matched = false;
        if n >= 3 && i <= n - 3 && v[i] == '{' && is_digit_ch(v[i + 1]) && v[i + 2] == ':' {
            let j = find_close(&v, i + 3);
            if j < n {
                matched = true;
                let d = v[i + 1];
                // copy the content characters
                let mut content: Vec<char> = Vec::new();
                let mut p: usize = i + 3;
                proof {
                    assert(content@ =~= v@.subrange(i + 3, i + 3));
                }
                while p < j
                    invariant
                        i + 3 <= p <= j <= v@.len(),
                        content@ == v@.subrange(i + 3, p as int),
                    decreases j - p,
                {
                    content.push(v[p]);
                    p = p + 1;
                    proof {
                        assert(content@ =~= v@.subrange(i + 3, p as int));
                    }
                }
                let s = from_chars(&content);
                let idx = ((d as u32) - 48) as usize;
                let ghost old_slots = slots@;
                slots.set(idx, Option::Some(s));
                proof {
                    acc = acc0.push((v@[i + 1], v@.subrange(i + 3, j as int)));
                    assert(block_match_at(v@, i as int));
                    assert(spec_block_pairs(v@, i as int) == seq![
                        (v@[i + 1], v@.subrange(i + 3, j as int)),
                    ] + spec_block_pairs_cont(v@, i as int, j as int));
                    lemma_next_close_ge(v@, i + 3);
                    assert(spec_block_pairs_cont(v@, i as int, j as int) == spec_block_pairs(
                        v@,
                        j + 1,
                    ));
                    assert(acc + spec_block_pairs(v@, j + 1) =~= all);
                    assert(acc.drop_last() =~= acc0);
                    assert forall|dd: char| is_digit(dd) implies #[trigger] last_with(acc, dd)
                        == (match slots@[dd as u32 - 48] {
                        Option::None => Option::None::<Seq<char>>,
                        Option::Some(s2) => Option::Some(s2@),
                    }) by {
                        assert(is_digit(v@[i + 1]));
                        assert(idx == v@[i + 1] as u32 - 48);
                        if dd == v@[i + 1] {
                            assert(acc.last().0 == dd);
                            assert(last_with(acc, dd) == Option::Some(acc.last().1));
                            assert(slots@[dd as u32 - 48] == Option::Some(s));
                            assert(s@ == acc.last().1);
                        } else {
                            assert(acc.last().0 != dd);
                            assert(last_with(acc, dd) == last_with(acc.drop_last(), dd));
                            assert(last_with(acc, dd) == last_with(acc0, dd));
                            if dd as u32 == v@[i + 1] as u32 {
                                lemma_char_code(dd, v@[i + 1]);
                                assert(false);
                            }
                            assert(slots@[dd as u32 - 48] == old_slots[dd as u32 - 48]);
                        }
                    }
                }
                i = j + 1;
            }
        }
        if !matched {
            proof {
                if i + 3 <= v@.len() && v@[i as int] == '{' && is_digit(v@[i + 1]) && v@[i + 2]
                    == ':' {
                    lemma_next_close_ge(v@, i + 3);
                    assert(!block_match_at(v@, i as int));
                } else {
                    assert(!block_match_at(v@, i as int));
                }
                assert(spec_block_pairs(v@, i as int) == spec_block_pairs(v@, i + 1));
            }
            i = i + 1;
        }
    }
    proof {
        assert(spec_block_pairs(v@, v@.len() as int) =~= Seq::<(char, Seq<char>)>::empty());
        assert(acc =~= all);
    }
    // fallback for the alternate multi-line form of block 4
    let ghost direct_slots = slots@;
    let has4 = match &slots[4] {
        Option::Some(_) => true,
        Option::None => false,
    };
    let ghost mut alt: Option<Seq<char>> = Option::None;
    if !has4 {
        match find_alt4(&v) {
            Option::Some(content) => {
                proof {
                    alt = Option::Some(content@);
                }
                slots.set(4, Option::Some(content));
            },
            Option::None => {},
        }
    }
    let r = Blocks { slots };
    proof {
        assert(('4' as u32 - 48) == 4);
        lemma_pairs_digit_keys(v@, 0);
        assert forall|d: char| #[trigger] r.spec_get(d) == spec_block_of(data@, d) by {
            if is_digit(d) {
                if d as u32 == 52 {
                    lemma_char_code(d, '4');
                    assert(d == '4');
                    if has4 {
                        assert(slots@[4] == direct_slots[4]);
                        assert(last_with(all, d) is Some);
                    } else {
                        assert(direct_slots[4] is None);
                        assert(last_with(all, d) is None);
                        match alt {
                            Option::Some(c) => {
                                assert(spec_alt4(v@, 0) == Option::Some(c));
                                assert(slots@[4] is Some && slots@[4]->0@ == c);
                            },
                            Option::None => {
                                assert(spec_alt4(v@, 0) is None);
                                assert(slots@[4] == direct_slots[4]);
                            },
                        }
                    }
                } else {
                    assert(d != '4') by {
                        if d == '4' {
                            assert(d as u32 == 52);
                        }
                    }
                    assert(0 <= d as u32 - 48 < 10 && d as u32 - 48 != 4);
                    assert(slots@[d as u32 - 48] == direct_slots[d as u32 - 48]);
                    assert(last_with(all, d) == last_with(acc, d));
                }
            } else {
                assert(r.spec_get(d) is None);
                lemma_last_with_none(spec_block_pairs(v@, 0), d);
                assert(d != '4');
            }
        }
    }
    r
}

/// Finds the end of the whitespace run starting at `from`.
fn ws_end(v: &Vec<char>, from: usize) -> (r: usize)
    requires
        from <= v@.len(),
    ensures
        r == ws_run_end(v@, from as int),
        from <= r <= v@.len(),
    decreases v@.len() - from,
{
    let mut i: usize = from;
    while i < v.len() && is_ws_ch(v[i])
        invariant
            from <= i <= v@.len(),
            ws_run_end(v@, from as int) == ws_run_end(v@, i as int),
        decreases v@.len() - i,
    {
        i = i + 1;
    }
    i
}

/// Finds the last newline in `[from, end)`, or `None`.
fn last_nl(v: &Vec<char>, from: usize, end: usize) -> (r: Option<usize>)
    requires
        from <= end <= v@.len(),
    ensures
        match r {
            Option::Some(q) => q as int == last_nl_before(v@, from as int, end as int) && from
                <= q < end,
            Option::None => last_nl_before(v@, from as int, end as int) == -1,
        },
    decreases end,
{
    let mut e: usize = end;
    while e > from && v[e - 1] != '\n'
        invariant
            from <= e <= end <= v@.len(),
            last_nl_before(v@, from as int, end as int) == last_nl_before(
                v@,
                from as int,
                e as int,
            ),
        decreases e,
    {
        e = e - 1;
    }
    if e > from {
        Option::Some(e - 1)
    } else {
        Option::None
    }
}

/// Finds the first `-}` at or after `from`.
fn find_dash_close(v: &Vec<char>, from: usize) -> (r: usize)
    requires
        from <= v@.len(),
    ensures
        r == next_dash_close(v@, from as int),
        from <= r <= v@.len(),
    decreases v@.len() - from,
{
    let n = v.len();
    let mut i: usize = from;
    loop
        invariant_except_break
            from <= i <= v@.len(),
            n == v@.len(),
            next_dash_close(v@, from as int) == next_dash_close(v@, i as int),
        ensures
            from <= i,
            next_dash_close(v@, from as int) == next_dash_close(v@, i as int),
            i + 1 >= n ==> next_dash_close(v@, i as int) == n,
            i + 1 < n ==> v@[i as int] == '-' && v@[i + 1] == '}' && next_dash_close(
                v@,
                i as int,
            ) == i,
            i <= n,
        decreases v@.len() - i,
    {
        if n - i < 2 {
            break;
        }
        if v[i] == '-' && v[i + 1] == '}' {
            break;
        }
        i = i + 1;
    }
    if n - i < 2 {
        n
    } else {
        i
    }
}

/// Scans for the alternate multi-line form of block 4.
fn find_alt4(v: &Vec<char>) -> (r: Option<String>)
    ensures
        match r {
            Option::Some(s) => spec_alt4(v@, 0) == Option::Some(s@),
            Option::None => spec_alt4(v@, 0) is None,
        },
{
    let n = v.len();
    let mut i: usize = 0;
    while i < n
        invariant
            i <= n,
            n == v@.len(),
            spec_alt4(v@, 0) == spec_alt4(v@, i as int),
        decreases n - i,
    {
        let mut this: Option<String> = Option::None;
        if n >= 3 && i <= n - 3 && v[i] == '{' && v[i + 1] == '4' && v[i + 2] == ':' {
            proof {
                reveal_strlit("{4:");
                assert(v@.subrange(i as int, i + 3) =~= "{4:"@);
            }
            let w = ws_end(v, i + 3);
            match last_nl(v, i + 3, w) {
                Option::Some(q) => {
                    let m = find_dash_close(v, q + 1);
                    if m < n {
                        let mut content: Vec<char> = Vec::new();
                        let mut p: usize = q + 1;
                        proof {
                            assert(content@ =~= v@.subrange(q + 1, q + 1));
                        }
                        while p < m
                            invariant
                                q + 1 <= p <= m <= v@.len(),
                                content@ == v@.subrange(q + 1, p as int),
                            decreases m - p,
                        {
                            content.push(v[p]);
                            p = p + 1;
                            proof {
                                assert(content@ =~= v@.subrange(q + 1, p as int));
                            }
                        }
                        this = Option::Some(from_chars(&content));
                    }
                },
                Option::None => {},
            }
        } else {
            proof {
                reveal_strlit("{4:");
                if 0 <= i as int && i + 3 <= v@.len() && v@.subrange(i as int, i + 3) == "{4:"@ {
                    assert(v@.subrange(i as int, i + 3)[0] == v@[i as int]);
                    assert(v@.subrange(i as int, i + 3)[1] == v@[i + 1]);
                    assert(v@.subrange(i as int, i + 3)[2] == v@[i + 2]);
                    assert(v@[i as int] == '{' && v@[i + 1] == '4' && v@[i + 2] == ':');
                    assert(false);
                }
                assert(alt4_match_at(v@, i as int) is None);
            }
        }
        match this {
            Option::Some(s) => {
                proof {
                    assert(alt4_match_at(v@, i as int) == Option::Some(s@));
                }
                return Option::Some(s);
            },
            Option::None => {
                proof {
                    assert(alt4_match_at(v@, i as int) is None);
                    assert(spec_alt4(v@, i as int) == spec_alt4(v@, i + 1));
                }
                i = i + 1;
            },
        }
    }
    Option::None
}

} // verus!

verus! {

// ------------------------------------------------------------------
// Field construction and the fixed name dictionaries.
// ------------------------------------------------------------------

/// A plain string field as the block decoders emit it.
pub open spec fn spec_create_field(idx: nat, name: Seq<char>, value: Seq<char>) -> FieldModel {
    FieldModel {
        id: "field-"@ + spec_dec(idx),
        name,
        value: ValueModel::VStr(value),
        ftype: "string"@,
        original: value,
        position: Option::None,
    }
}

/// Builds a plain string field.
pub fn create_field(idx: usize, name: &str, value: &Vec<char>) -> (r: ParsedField)
    ensures
        r.model() == spec_create_field(idx as nat, name@, value@),
{
    ParsedField {
        id: String::from_str("field-").concat(dec_u64(idx as u64).as_str()),
        name: String::from_str(name),
        value: FieldValue::String(from_chars(value)),
        field_type: String::from_str("string"),
        original_value: from_chars(value),
        position: Option::None,
    }
}

/// The display name of a block 4 field tag; unresolved tags become
/// `Field {tag}`.
pub open spec fn spec_fin_field_name(tag: Seq<char>) -> Seq<char> {
    if tag == "20"@ {
        "Transaction Reference Number"@
    } else if tag == "21"@ {
        "Related Reference"@
    } else if tag == "23B"@ {
        "Bank Operation Code"@
    } else if tag == "23E"@ {
        "Instruction Code"@
    } else if tag == "25"@ {
        "Account Identification"@
    } else if tag == "25P"@ {
        "Account Identification with Party"@
    } else if tag == "28C"@ {
        "Statement Number/Sequence Number"@
    } else if tag == "32A"@ {
        "Value Date/Currency/Amount"@
    } else if tag == "33B"@ {
        "Currency/Instructed Amount"@
    } else if tag == "36"@ {
        "Exchange Rate"@
    } else if tag == "50A"@ {
        "Ordering Customer (Account)"@
    } else if tag == "50F"@ {
        "Ordering Customer (Party)"@
    } else if tag == "50K"@ {
        "Ordering Customer (Name & Address)"@
    } else if tag == "51A"@ {
        "Sending Institution"@
    } else if tag == "52A"@ {
        "Ordering Institution (Account)"@
    } else if tag == "52D"@ {
        "Ordering Institution (Name & Address)"@
    } else if tag == "53A"@ {
        "Sender's Correspondent (Account)"@
    } else if tag == "53B"@ {
        "Sender's Correspondent (Location)"@
    } else if tag == "53D"@ {
        "Sender's Correspondent (Name & Address)"@
    } else if tag == "54A"@ {
        "Receiver's Correspondent (Account)"@
    } else if tag == "54B"@ {
        "Receiver's Correspondent (Location)"@
    } else if tag == "54D"@ {
        "Receiver's Correspondent (Name & Address)"@
    } else if tag == "55A"@ {
        "Third Reimbursement Institution (Account)"@
    } else if tag == "55B"@ {
        "Third Reimbursement Institution (Location)"@
    } else if tag == "55D"@ {
        "Third Reimbursement Institution (Name & Address)"@
    } else if tag == "56A"@ {
        "Intermediary Institution (Account)"@
    } else if tag == "56C"@ {
        "Intermediary Institution (Account)"@
    } else if tag == "56D"@ {
        "Intermediary Institution (Name & Address)"@
    } else if tag == "57A"@ {
        "Account With Institution (Account)"@
    } else if tag == "57B"@ {
        "Account With Institution (Location)"@
    } else if tag == "57C"@ {
        "Account With Institution (Account)"@
    } else if tag == "57D"@ {
        "Account With Institution (Name & Address)"@
    } else if tag == "59"@ {
        "Beneficiary Customer"@
    } else if tag == "59A"@ {
        "Beneficiary Customer (Account)"@
    } else if tag == "59F"@ {
        "Beneficiary Customer (Party)"@
    } else if tag == "60F"@ {
        "Opening Balance"@
    } else if tag == "60M"@ {
        "Opening Balance (Intermediate)"@
    } else if tag == "61"@ {
        "Statement Line"@
    } else if tag == "62F"@ {
        "Closing Balance"@
    } else if tag == "62M"@ {
        "Closing Balance (Intermediate)"@
    } else if tag == "64"@ {
        "Closing Available Balance"@
    } else if tag == "65"@ {
        "Forward Available Balance"@
    } else if tag == "70"@ {
        "Remittance Information"@
    } else if tag == "71A"@ {
        "Details of Charges"@
    } else if tag == "71F"@ {
        "Sender's Charges"@
    } else if tag == "71G"@ {
        "Receiver's Charges"@
    } else if tag == "72"@ {
        "Sender to Receiver Information"@
    } else if tag == "77B"@ {
        "Regulatory Reporting"@
    } else if tag == "77T"@ {
        "Envelope Contents"@
    } else if tag == "86"@ {
        "Information to Account Owner"@
    } else {
        "Field "@ + tag
    }
}

fn fin_field_name(tag: &Vec<char>) -> (r: String)
    ensures
        r@ == spec_fin_field_name(tag@),
{
    if eq_str(tag, "20") {
        String::from_str("Transaction Reference Number")
    } else if eq_str(tag, "21") {
        String::from_str("Related Reference")
    } else if eq_str(tag, "23B") {
        String::from_str("Bank Operation Code")
    } else if eq_str(tag, "23E") {
        String::from_str("Instruction Code")
    } else if eq_str(tag, "25") {
        String::from_str("Account Identification")
    } else if eq_str(tag, "25P") {
        String::from_str("Account Identification with Party")
    } else if eq_str(tag, "28C") {
        String::from_str("Statement Number/Sequence Number")
    } else if eq_str(tag, "32A") {
        String::from_str("Value Date/Currency/Amount")
    } else if eq_str(tag, "33B") {
        String::from_str("Currency/Instructed Amount")
    } else if eq_str(tag, "36") {
        String::from_str("Exchange Rate")
    } else if eq_str(tag, "50A") {
        String::from_str("Ordering Customer (Account)")
    } else if eq_str(tag, "50F") {
        String::from_str("Ordering Customer (Party)")
    } else if eq_str(tag, "50K") {
        String::from_str("Ordering Customer (Name & Address)")
    } else if eq_str(tag, "51A") {
        String::from_str("Sending Institution")
    } else if eq_str(tag, "52A") {
        String::from_str("Ordering Institution (Account)")
    } else if eq_str(tag, "52D") {
        String::from_str("Ordering Institution (Name & Address)")
    } else if eq_str(tag, "53A") {
        String::from_str("Sender's Correspondent (Account)")
    } else if eq_str(tag, "53B") {
        String::from_str("Sender's Correspondent (Location)")
    } else if eq_str(tag, "53D") {
        String::from_str("Sender's Correspondent (Name & Address)")
    } else if eq_str(tag, "54A") {
        String::from_str("Receiver's Correspondent (Account)")
    } else if eq_str(tag, "54B") {
        String::from_str("Receiver's Correspondent (Location)")
    } else if eq_str(tag, "54D") {
        String::from_str("Receiver's Correspondent (Name & Address)")
    } else if eq_str(tag, "55A") {
        String::from_str("Third Reimbursement Institution (Account)")
    } else if eq_str(tag, "55B") {
        String::from_str("Third Reimbursement Institution (Location)")
    } else if eq_str(tag, "55D") {
        String::from_str("Third Reimbursement Institution (Name & Address)")
    } else if eq_str(tag, "56A") {
        String::from_str("Intermediary Institution (Account)")
    } else if eq_str(tag, "56C") {
        String::from_str("Intermediary Institution (Account)")
    } else if eq_str(tag, "56D") {
        String::from_str("Intermediary Institution (Name & Address)")
    } else if eq_str(tag, "57A") {
        String::from_str("Account With Institution (Account)")
    } else if eq_str(tag, "57B") {
        String::from_str("Account With Institution (Location)")
    } else if eq_str(tag, "57C") {
        String::from_str("Account With Institution (Account)")
    } else if eq_str(tag, "57D") {
        String::from_str("Account With Institution (Name & Address)")
    } else if eq_str(tag, "59") {
        String::from_str("Beneficiary Customer")
    } else if eq_str(tag, "59A") {
        String::from_str("Beneficiary Customer (Account)")
    } else if eq_str(tag, "59F") {
        String::from_str("Beneficiary Customer (Party)")
    } else if eq_str(tag, "60F") {
        String::from_str("Opening Balance")
    } else if eq_str(tag, "60M") {
        String::from_str("Opening Balance (Intermediate)")
    } else if eq_str(tag, "61") {
        String::from_str("Statement Line")
    } else if eq_str(tag, "62F") {
        String::from_str("Closing Balance")
    } else if eq_str(tag, "62M") {
        String::from_str("Closing Balance (Intermediate)")
    } else if eq_str(tag, "64") {
        String::from_str("Closing Available Balance")
    } else if eq_str(tag, "65") {
        String::from_str("Forward Available Balance")
    } else if eq_str(tag, "70") {
        String::from_str("Remittance Information")
    } else if eq_str(tag, "71A") {
        String::from_str("Details of Charges")
    } else if eq_str(tag, "71F") {
        String::from_str("Sender's Charges")
    } else if eq_str(tag, "71G") {
        String::from_str("Receiver's Charges")
    } else if eq_str(tag, "72") {
        String::from_str("Sender to Receiver Information")
    } else if eq_str(tag, "77B") {
        String::from_str("Regulatory Reporting")
    } else if eq_str(tag, "77T") {
        String::from_str("Envelope Contents")
    } else if eq_str(tag, "86") {
        String::from_str("Information to Account Owner")
    } else {
        String::from_str("Field ").concat(from_chars(tag).as_str())
    }
}

/// The display name of a block 3 tag; unknown tags keep the tag itself.
pub open spec fn spec_block3_name(tag: Seq<char>) -> Seq<char> {
    if tag == "103"@ {
        "Service Type Identifier"@
    } else if tag == "108"@ {
        "Message User Reference"@
    } else if tag == "111"@ {
        "Service Type Identifier"@
    } else if tag == "113"@ {
        "Banking Priority"@
    } else if tag == "115"@ {
        "Addressee Information"@
    } else if tag == "119"@ {
        "Validation Flag"@
    } else if tag == "121"@ {
        "Unique End-to-End Transaction Reference"@
    } else if tag == "165"@ {
        "Payment Release Information"@
    } else if tag == "433"@ {
        "Sanctions Screening Information"@
    } else if tag == "434"@ {
        "Payment Controls Information"@
    } else {
        tag
    }
}

fn block3_name(tag: &Vec<char>) -> (r: String)
    ensures
        r@ == spec_block3_name(tag@),
{
    if eq_str(tag, "103") {
        String::from_str("Service Type Identifier")
    } else if eq_str(tag, "108") {
        String::from_str("Message User Reference")
    } else if eq_str(tag, "111") {
        String::from_str("Service Type Identifier")
    } else if eq_str(tag, "113") {
        String::from_str("Banking Priority")
    } else if eq_str(tag, "115") {
        String::from_str("Addressee Information")
    } else if eq_str(tag, "119") {
        String::from_str("Validation Flag")
    } else if eq_str(tag, "121") {
        String::from_str("Unique End-to-End Transaction Reference")
    } else if eq_str(tag, "165") {
        String::from_str("Payment Release Information")
    } else if eq_str(tag, "433") {
        String::from_str("Sanctions Screening Information")
    } else if eq_str(tag, "434") {
        String::from_str("Payment Controls Information")
    } else {
        from_chars(tag)
    }
}

/// The display name of a block 5 tag; unknown tags keep the tag itself.
pub open spec fn spec_block5_name(tag: Seq<char>) -> Seq<char> {
    if tag == "CHK"@ {
        "Checksum"@
    } else if tag == "TNG"@ {
        "Training"@
    } else if tag == "PDE"@ {
        "Possible Duplicate Emission"@
    } else if tag == "DLM"@ {
        "Delayed Message"@
    } else if tag == "MRF"@ {
        "Message Reference"@
    } else if tag == "PDM"@ {
        "Possible Duplicate Message"@
    } else if tag == "SYS"@ {
        "System Originated Message"@
    } else {
        tag
    }
}

fn block5_name(tag: &Vec<char>) -> (r: String)
    ensures
        r@ == spec_block5_name(tag@),
{
    if eq_str(tag, "CHK") {
        String::from_str("Checksum")
    } else if eq_str(tag, "TNG") {
        String::from_str("Training")
    } else if eq_str(tag, "PDE") {
        String::from_str("Possible Duplicate Emission")
    } else if eq_str(tag, "DLM") {
        String::from_str("Delayed Message")
    } else if eq_str(tag, "MRF") {
        String::from_str("Message Reference")
    } else if eq_str(tag, "PDM") {
        String::from_str("Possible Duplicate Message")
    } else if eq_str(tag, "SYS") {
        String::from_str("System Originated Message")
    } else {
        from_chars(tag)
    }
}

/// The block 4 tags that close a field group.
pub open spec fn spec_group_boundary(tag: Seq<char>) -> bool {
    tag == "59"@ || tag == "59A"@ || tag == "59F"@ || tag == "61"@ || tag == "86"@
}

/// True when a tag closes the accumulating field group.
pub fn is_group_boundary(tag: &str) -> (r: bool)
    ensures
        r == spec_group_boundary(tag@),
{
    let v = to_chars(tag);
    eq_str(&v, "59") || eq_str(&v, "59A") || eq_str(&v, "59F") || eq_str(&v, "61") || eq_str(
        &v,
        "86",
    )
}

/// The type tag of a block 4 field: amount-style tags with at least one
/// digit in the value classify as numbers, everything else as strings.
pub open spec fn spec_infer_fin(tag: Seq<char>, value: Seq<char>) -> Seq<char> {
    if tag == "32A"@ || tag == "33B"@ || tag == "60F"@ || tag == "60M"@ || tag == "62F"@ || tag
        == "62M"@ || tag == "64"@ || tag == "65"@ {
        if exists|i: int| 0 <= i < value.len() && is_digit(value[i]) {
            "number"@
        } else {
            "string"@
        }
    } else {
        "string"@
    }
}

/// Infers the type tag of a block 4 field from its tag and value.
pub fn infer_fin_type(tag: &str, value: &str) -> (r: String)
    ensures
        r@ == spec_infer_fin(tag@, value@),
{
    let tv = to_chars(tag);
    let vv = to_chars(value);
    infer_fin_chars(&tv, &vv)
}

fn infer_fin_chars(tv: &Vec<char>, vv: &Vec<char>) -> (r: String)
    ensures
        r@ == spec_infer_fin(tv@, vv@),
{
    let amount = eq_str(tv, "32A") || eq_str(tv, "33B") || eq_str(tv, "60F") || eq_str(
        tv,
        "60M",
    ) || eq_str(tv, "62F") || eq_str(tv, "62M") || eq_str(tv, "64") || eq_str(tv, "65");
    if !amount {
        return String::from_str("string");
    }
    let mut i: usize = 0;
    while i < vv.len()
        invariant
            i <= vv@.len(),
            tv@ == "32A"@ || tv@ == "33B"@ || tv@ == "60F"@ || tv@ == "60M"@ || tv@ == "62F"@
                || tv@ == "62M"@ || tv@ == "64"@ || tv@ == "65"@,
            forall|j: int| 0 <= j < i ==> !is_digit(vv@[j]),
        decreases vv@.len() - i,
    {
        if is_digit_ch(vv[i]) {
            return String::from_str("number");
        }
        i = i + 1;
    }
    String::from_str("string")
}

// ------------------------------------------------------------------
// Blocks 1 and 2: positional sub-fields at fixed character offsets, each
// included only when the content is long enough to contain it.
// ------------------------------------------------------------------

/// The sub-fields of the basic header.
pub open spec fn spec_block1_fields(c: Seq<char>) -> Seq<FieldModel> {
    (if c.len() >= 1 {
        seq![spec_create_field(0, "Application ID"@, c.subrange(0, 1))]
    } else {
        Seq::empty()
    }) + (if c.len() >= 3 {
        seq![spec_create_field(1, "Service ID"@, c.subrange(1, 3))]
    } else {
        Seq::empty()
    }) + (if c.len() >= 15 {
        seq![spec_create_field(2, "Logical Terminal"@, c.subrange(3, 15))]
    } else {
        Seq::empty()
    }) + (if c.len() >= 19 {
        seq![spec_create_field(3, "Session Number"@, c.subrange(15, 19))]
    } else {
        Seq::empty()
    }) + (if c.len() >= 25 {
        seq![spec_create_field(4, "Sequence Number"@, c.subrange(19, 25))]
    } else {
        Seq::empty()
    })
}

/// Decodes block 1, the basic header.
pub fn parse_block1(content: &str) -> (r: Vec<ParsedField>)
    ensures
        r@.map_values(|f: ParsedField| f.model()) == spec_block1_fields(content@),
{
    let c = to_chars(content);
    let mut fields: Vec<ParsedField> = Vec::new();
    if c.len() >= 1 {
        fields.push(create_field(0, "Application ID", &sub_chars(&c, 0, 1)));
    }
    if c.len() >= 3 {
        fields.push(create_field(1, "Service ID", &sub_chars(&c, 1, 3)));
    }
    if c.len() >= 15 {
        fields.push(create_field(2, "Logical Terminal", &sub_chars(&c, 3, 15)));
    }
    if c.len() >= 19 {
        fields.push(create_field(3, "Session Number", &sub_chars(&c, 15, 19)));
    }
    if c.len() >= 25 {
        fields.push(create_field(4, "Sequence Number", &sub_chars(&c, 19, 25)));
    }
    proof {
        assert(fields@.map_values(|f: ParsedField| f.model()) =~= spec_block1_fields(content@));
    }
    fields
}

/// The sub-fields of the application header: a direction flag, then a
/// layout that differs between input and output messages.
pub open spec fn spec_block2_fields(c: Seq<char>) -> Seq<FieldModel> {
    if c.len() == 0 {
        Seq::empty()
    } else {
        let dir = seq![
            spec_create_field(
                0,
                "Direction"@,
                if c[0] == 'I' {
                    "Input"@
                } else {
                    "Output"@
                },
            ),
        ];
        if c[0] == 'I' && c.len() >= 4 {
            dir + seq![spec_create_field(1, "Message Type"@, c.subrange(1, 4))] + (if c.len()
                >= 16 {
                seq![spec_create_field(2, "Destination"@, c.subrange(4, 16))]
            } else {
                Seq::empty()
            })
        } else if c[0] == 'O' && c.len() >= 4 {
            dir + seq![spec_create_field(1, "Message Type"@, c.subrange(1, 4))] + (if c.len()
                >= 8 {
                seq![spec_create_field(2, "Input Time"@, c.subrange(4, 8))]
            } else {
                Seq::empty()
            })
        } else {
            dir
        }
    }
}

/// Decodes block 2, the application header.
pub fn parse_block2(content: &str) -> (r: Vec<ParsedField>)
    ensures
        r@.map_values(|f: ParsedField| f.model()) == spec_block2_fields(content@),
{
    let c = to_chars(content);
    let mut fields: Vec<ParsedField> = Vec::new();
    if c.len() == 0 {
        proof {
            assert(fields@.map_values(|f: ParsedField| f.model()) =~= spec_block2_fields(
                content@,
            ));
        }
        return fields;
    }
    let direction = c[0];
    let dir_value = if direction == 'I' {
        to_chars("Input")
    } else {
        to_chars("Output")
    };
    fields.push(create_field(0, "Direction", &dir_value));
    if direction == 'I' && c.len() >= 4 {
        fields.push(create_field(1, "Message Type", &sub_chars(&c, 1, 4)));
        if c.len() >= 16 {
            fields.push(create_field(2, "Destination", &sub_chars(&c, 4, 16)));
        }
    } else if direction == 'O' && c.len() >= 4 {
        fields.push(create_field(1, "Message Type", &sub_chars(&c, 1, 4)));
        if c.len() >= 8 {
            fields.push(create_field(2, "Input Time", &sub_chars(&c, 4, 8)));
        }
    }
    proof {
        assert(fields@.map_values(|f: ParsedField| f.model()) =~= spec_block2_fields(content@));
    }
    fields
}

} // verus!

verus! {

// ------------------------------------------------------------------
// Blocks 3 and 5: repeated `{tag:value}` sub-blocks.
// ------------------------------------------------------------------

pub open spec fn is_upper(c: char) -> bool {
    65 <= c as u32 && c as u32 <= 90
}

fn is_upper_ch(c: char) -> (b: bool)
    ensures
        b == is_upper(c),
{
    let u = c as u32;
    65 <= u && u <= 90
}

/// Whether a three-digit tagged sub-block starts at `i`.
pub open spec fn sub3_match_at(s: Seq<char>, i: int) -> bool {
    &&& 0 <= i
    &&& i + 5 <= s.len()
    &&& s[i] == '{'
    &&& is_digit(s[i + 1])
    &&& is_digit(s[i + 2])
    &&& is_digit(s[i + 3])
    &&& s[i + 4] == ':'
    &&& next_close(s, i + 5) < s.len()
}

/// The `(tag, value)` pairs of the three-digit sub-blocks of `s`.
pub open spec fn spec_sub3_pairs(s: Seq<char>, i: int) -> Seq<(Seq<char>, Seq<char>)>
    decreases s.len() - i, 1int,
{
    if i < 0 || i >= s.len() {
        Seq::empty()
    } else if sub3_match_at(s, i) {
        let j = next_close(s, i + 5);
        seq![(s.subrange(i + 1, i + 4), s.subrange(i + 5, j))] + spec_sub3_cont(s, i, j)
    } else {
        spec_sub3_pairs(s, i + 1)
    }
}

pub open spec fn spec_sub3_cont(s: Seq<char>, i: int, j: int) -> Seq<(Seq<char>, Seq<char>)>
    decreases s.len() - i, 0int,
{
    if i + 5 <= j < s.len() {
        spec_sub3_pairs(s, j + 1)
    } else {
        Seq::empty()
    }
}

/// Whether a three-letter tagged sub-block starts at `i`.
pub open spec fn sub5_match_at(s: Seq<char>, i: int) -> bool {
    &&& 0 <= i
    &&& i + 5 <= s.len()
    &&& s[i] == '{'
    &&& is_upper(s[i + 1])
    &&& is_upper(s[i + 2])
    &&& is_upper(s[i + 3])
    &&& s[i + 4] == ':'
    &&& next_close(s, i + 5) < s.len()
}

/// The `(tag, value)` pairs of the three-letter sub-blocks of `s`.
pub open spec fn spec_sub5_pairs(s: Seq<char>, i: int) -> Seq<(Seq<char>, Seq<char>)>
    decreases s.len() - i, 1int,
{
    if i < 0 || i >= s.len() {
        Seq::empty()
    } else if sub5_match_at(s, i) {
        let j = next_close(s, i + 5);
        seq![(s.subrange(i + 1, i + 4), s.subrange(i + 5, j))] + spec_sub5_cont(s, i, j)
    } else {
        spec_sub5_pairs(s, i + 1)
    }
}

pub open spec fn spec_sub5_cont(s: Seq<char>, i: int, j: int) -> Seq<(Seq<char>, Seq<char>)>
    decreases s.len() - i, 0int,
{
    if i + 5 <= j < s.len() {
        spec_sub5_pairs(s, j + 1)
    } else {
        Seq::empty()
    }
}

/// The block 3 fields: one per sub-block, named through the block 3
/// dictionary, indexed in match order.
pub open spec fn spec_block3_fields(pairs: Seq<(Seq<char>, Seq<char>)>) -> Seq<FieldModel>
    decreases pairs.len(),
{
    if pairs.len() == 0 {
        Seq::empty()
    } else {
        spec_block3_fields(pairs.drop_last()).push(
            spec_create_field(
                (pairs.len() - 1) as nat,
                spec_block3_name(pairs.last().0),
                pairs.last().1,
            ),
        )
    }
}

/// The block 5 fields, named through the block 5 dictionary.
pub open spec fn spec_block5_fields(pairs: Seq<(Seq<char>, Seq<char>)>) -> Seq<FieldModel>
    decreases pairs.len(),
{
    if pairs.len() == 0 {
        Seq::empty()
    } else {
        spec_block5_fields(pairs.drop_last()).push(
            spec_create_field(
                (pairs.len() - 1) as nat,
                spec_block5_name(pairs.last().0),
                pairs.last().1,
            ),
        )
    }
}

/// Decodes block 3, the user header.
pub fn parse_block3(content: &str) -> (r: Vec<ParsedField>)
    ensures
        r@.map_values(|f: ParsedField| f.model()) == spec_block3_fields(
            spec_sub3_pairs(content@, 0),
        ),
{
    let v = to_chars(content);
    let ghost all = spec_sub3_pairs(v@, 0);
    let mut fields: Vec<ParsedField> = Vec::new();
    let ghost mut acc: Seq<(Seq<char>, Seq<char>)> = Seq::empty();
    let mut i: usize = 0;
    proof {
        assert(acc + spec_sub3_pairs(v@, 0) =~= all);
        assert(fields@.map_values(|f: ParsedField| f.model()) =~= spec_block3_fields(acc));
    }
    while i < v.len()
        invariant
            i <= v@.len(),
            acc + spec_sub3_pairs(v@, i as int) =~= all,
            fields@.len() == acc.len(),
            fields@.map_values(|f: ParsedField| f.model()) == spec_block3_fields(acc),
        decreases v@.len() - i,
    {
        let ghost acc0 = acc;
        let n = v.len();
        let mut matched = false;
        if n >= 5 && i <= n - 5 && v[i] == '{' && is_digit_ch(v[i + 1]) && is_digit_ch(v[i + 2])
            && is_digit_ch(v[i + 3]) && v[i + 4] == ':' {
            let j = find_close(&v, i + 5);
            if j < n {
                matched = true;
                let tag = sub_chars(&v, i + 1, i + 4);
                let value = sub_chars(&v, i + 5, j);
                let name = block3_name(&tag);
                fields.push(create_field(fields.len(), name.as_str(), &value));
                proof {
                    acc = acc0.push((v@.subrange(i + 1, i + 4), v@.subrange(i + 5, j as int)));
                    assert(sub3_match_at(v@, i as int));
                    lemma_next_close_ge(v@, i + 5);
                    assert(spec_sub3_cont(v@, i as int, j as int) == spec_sub3_pairs(
                        v@,
                        j + 1,
                    ));
                    assert(spec_sub3_pairs(v@, i as int) == seq![
                        (v@.subrange(i + 1, i + 4), v@.subrange(i + 5, j as int)),
                    ] + spec_sub3_pairs(v@, j + 1));
                    assert(acc + spec_sub3_pairs(v@, j + 1) =~= all);
                    assert(acc.drop_last() =~= acc0);
                    assert(fields@.map_values(|f: ParsedField| f.model()) =~= spec_block3_fields(
                        acc,
                    ));
                }
                i = j + 1;
            }
        }
        if !matched {
            proof {
                if i + 5 <= v@.len() && v@[i as int] == '{' && is_digit(v@[i + 1]) && is_digit(
                    v@[i + 2],
                ) && is_digit(v@[i + 3]) && v@[i + 4] == ':' {
                    lemma_next_close_ge(v@, i + 5);
                    assert(!sub3_match_at(v@, i as int));
                } else {
                    assert(!sub3_match_at(v@, i as int));
                }
                assert(spec_sub3_pairs(v@, i as int) == spec_sub3_pairs(v@, i + 1));
            }
            i = i + 1;
        }
    }
    proof {
        assert(spec_sub3_pairs(v@, v@.len() as int) =~= Seq::<(Seq<char>, Seq<char>)>::empty());
        assert(acc =~= all);
    }
    fields
}

/// Decodes block 5, the trailer.
pub fn parse_block5(content: &str) -> (r: Vec<ParsedField>)
    ensures
        r@.map_values(|f: ParsedField| f.model()) == spec_block5_fields(
            spec_sub5_pairs(content@, 0),
        ),
{
    let v = to_chars(content);
    let ghost all = spec_sub5_pairs(v@, 0);
    let mut fields: Vec<ParsedField> = Vec::new();
    let ghost mut acc: Seq<(Seq<char>, Seq<char>)> = Seq::empty();
    let mut i: usize = 0;
    proof {
        assert(acc + spec_sub5_pairs(v@, 0) =~= all);
        assert(fields@.map_values(|f: ParsedField| f.model()) =~= spec_block5_fields(acc));
    }
    while i < v.len()
        invariant
            i <= v@.len(),
            acc + spec_sub5_pairs(v@, i as int) =~= all,
            fields@.len() == acc.len(),
            fields@.map_values(|f: ParsedField| f.model()) == spec_block5_fields(acc),
        decreases v@.len() - i,
    {
        let ghost acc0 = acc;
        let n = v.len();
        let mut matched = false;
        if n >= 5 && i <= n - 5 && v[i] == '{' && is_upper_ch(v[i + 1]) && is_upper_ch(v[i + 2])
            && is_upper_ch(v[i + 3]) && v[i + 4] == ':' {
            let j = find_close(&v, i + 5);
            if j < n {
                matched = true;
                let tag = sub_chars(&v, i + 1, i + 4);
                let value = sub_chars(&v, i + 5, j);
                let name = block5_name(&tag);
                fields.push(create_field(fields.len(), name.as_str(), &value));
                proof {
                    acc = acc0.push((v@.subrange(i + 1, i + 4), v@.subrange(i + 5, j as int)));
                    assert(sub5_match_at(v@, i as int));
                    lemma_next_close_ge(v@, i + 5);
                    assert(spec_sub5_cont(v@, i as int, j as int) == spec_sub5_pairs(
                        v@,
                        j + 1,
                    ));
                    assert(spec_sub5_pairs(v@, i as int) == seq![
                        (v@.subrange(i + 1, i + 4), v@.subrange(i + 5, j as int)),
                    ] + spec_sub5_pairs(v@, j + 1));
                    assert(acc + spec_sub5_pairs(v@, j + 1) =~= all);
                    assert(acc.drop_last() =~= acc0);
                    assert(fields@.map_values(|f: ParsedField| f.model()) =~= spec_block5_fields(
                        acc,
                    ));
                }
                i = j + 1;
            }
        }
        if !matched {
            proof {
                if i + 5 <= v@.len() && v@[i as int] == '{' && is_upper(v@[i + 1]) && is_upper(
                    v@[i + 2],
                ) && is_upper(v@[i + 3]) && v@[i + 4] == ':' {
                    lemma_next_close_ge(v@, i + 5);
                    assert(!sub5_match_at(v@, i as int));
                } else {
                    assert(!sub5_match_at(v@, i as int));
                }
                assert(spec_sub5_pairs(v@, i as int) == spec_sub5_pairs(v@, i + 1));
            }
            i = i + 1;
        }
    }
    proof {
        assert(spec_sub5_pairs(v@, v@.len() as int) =~= Seq::<(Seq<char>, Seq<char>)>::empty());
        assert(acc =~= all);
    }
    fields
}

} // verus!

verus! {

// ------------------------------------------------------------------
// Block 4: a flat sequence of `:tag:value` segments, where a value runs
// until the next tag marker or the end of the content. Fields accumulate
// into groups closed by the boundary tags.
// ------------------------------------------------------------------

/// A two-character tag marker `:dd:` at `i`.
pub open spec fn tag2_at(s: Seq<char>, i: int) -> bool {
    &&& 0 <= i
    &&& i + 4 <= s.len()
    &&& s[i] == ':'
    &&& is_digit(s[i + 1])
    &&& is_digit(s[i + 2])
    &&& s[i + 3] == ':'
}

/// A three-character tag marker `:ddL:` at `i`.
pub open spec fn tag3_at(s: Seq<char>, i: int) -> bool {
    &&& 0 <= i
    &&& i + 5 <= s.len()
    &&& s[i] == ':'
    &&& is_digit(s[i + 1])
    &&& is_digit(s[i + 2])
    &&& is_upper(s[i + 3])
    &&& s[i + 4] == ':'
}

pub open spec fn tag_at(s: Seq<char>, i: int) -> bool {
    tag2_at(s, i) || tag3_at(s, i)
}

/// Index of the first tag marker at or after `from`, or the length.
pub open spec fn next_tag(s: Seq<char>, from: int) -> int
    decreases s.len() - from,
{
    if from < 0 || from >= s.len() {
        s.len() as int
    } else if tag_at(s, from) {
        from
    } else {
        next_tag(s, from + 1)
    }
}

proof fn lemma_next_tag_ge(s: Seq<char>, from: int)
    requires
        0 <= from <= s.len(),
    ensures
        from <= next_tag(s, from) <= s.len(),
    decreases s.len() - from,
{
    if from < s.len() && !tag_at(s, from) {
        lemma_next_tag_ge(s, from + 1);
    }
}

/// The `(tag, value)` segments of a text block, in scan order.
pub open spec fn spec_scan4(s: Seq<char>, i: int) -> Seq<(Seq<char>, Seq<char>)>
    decreases s.len() - i, 1int,
{
    if i < 0 || i >= s.len() {
        Seq::empty()
    } else if tag_at(s, i) {
        let tl: int = if tag3_at(s, i) {
            3
        } else {
            2
        };
        let vstart = i + tl + 2;
        let vend = next_tag(s, vstart);
        seq![(s.subrange(i + 1, i + 1 + tl), s.subrange(vstart, vend))] + spec_scan4_more(
            s,
            i,
            vend,
        )
    } else {
        spec_scan4(s, i + 1)
    }
}

pub open spec fn spec_scan4_more(s: Seq<char>, i: int, vend: int) -> Seq<(Seq<char>, Seq<char>)>
    decreases s.len() - i, 0int,
{
    if i < vend <= s.len() {
        spec_scan4(s, vend)
    } else {
        Seq::empty()
    }
}

/// One block 4 field: trimmed value, dictionary name, amount-aware type
/// tag, and the `:tag: value` spelling as the original text.
pub open spec fn spec_block4_field(idx: nat, tag: Seq<char>, value: Seq<char>) -> FieldModel {
    let t = spec_trim(value);
    FieldModel {
        id: "field-4-"@ + spec_dec(idx),
        name: spec_fin_field_name(tag),
        value: ValueModel::VStr(t),
        ftype: spec_infer_fin(tag, t),
        original: ":"@ + tag + ": "@ + t,
        position: Option::None,
    }
}

/// The grouping fold over the segments: fields accumulate, and a boundary
/// tag closes the group that holds it.
pub open spec fn spec_groups4_state(pairs: Seq<(Seq<char>, Seq<char>)>) -> (
    Seq<Seq<FieldModel>>,
    Seq<FieldModel>,
)
    decreases pairs.len(),
{
    if pairs.len() == 0 {
        (Seq::empty(), Seq::empty())
    } else {
        let rec = spec_groups4_state(pairs.drop_last());
        let p = pairs.last();
        let f = spec_block4_field((pairs.len() - 1) as nat, p.0, p.1);
        let cur2 = rec.1.push(f);
        if spec_group_boundary(p.0) {
            (rec.0.push(cur2), Seq::empty())
        } else {
            (rec.0, cur2)
        }
    }
}

/// The field groups of block 4: the fold's groups, any trailing non-empty
/// group flushed, and one empty group when nothing was ever grouped.
pub open spec fn spec_block4_groups(c: Seq<char>) -> Seq<Seq<FieldModel>> {
    let st = spec_groups4_state(spec_scan4(c, 0));
    let gs = if st.1.len() > 0 {
        st.0.push(st.1)
    } else {
        st.0
    };
    if gs.len() == 0 {
        seq![Seq::<FieldModel>::empty()]
    } else {
        gs
    }
}

fn tag_at_exec(v: &Vec<char>, i: usize) -> (b: bool)
    requires
        i <= v@.len(),
    ensures
        b == tag_at(v@, i as int),
{
    let n = v.len();
    if n < 4 || i > n - 4 {
        return false;
    }
    if v[i] != ':' || !is_digit_ch(v[i + 1]) || !is_digit_ch(v[i + 2]) {
        return false;
    }
    if v[i + 3] == ':' {
        return true;
    }
    if n >= 5 && i <= n - 5 && is_upper_ch(v[i + 3]) && v[i + 4] == ':' {
        return true;
    }
    false
}

fn find_tag(v: &Vec<char>, from: usize) -> (r: usize)
    requires
        from <= v@.len(),
    ensures
        r == next_tag(v@, from as int),
        from <= r <= v@.len(),
    decreases v@.len() - from,
{
    let mut i: usize = from;
    while i < v.len() && !tag_at_exec(v, i)
        invariant
            from <= i <= v@.len(),
            next_tag(v@, from as int) == next_tag(v@, i as int),
        decreases v@.len() - i,
    {
        i = i + 1;
    }
    i
}

/// Decodes block 4, the text block, into field groups.
pub fn parse_block4(content: &str) -> (r: Vec<Vec<ParsedField>>)
    ensures
        r@.map_values(|g: Vec<ParsedField>| g@.map_values(|f: ParsedField| f.model()))
            == spec_block4_groups(content@),
{
    let v = to_chars(content);
    let ghost all = spec_scan4(v@, 0);
    let mut groups: Vec<Vec<ParsedField>> = Vec::new();
    let mut cur: Vec<ParsedField> = Vec::new();
    let mut field_idx: usize = 0;
    let ghost mut acc: Seq<(Seq<char>, Seq<char>)> = Seq::empty();
    let mut i: usize = 0;
    proof {
        assert(acc + spec_scan4(v@, 0) =~= all);
        assert(groups@.map_values(|g: Vec<ParsedField>| g@.map_values(|f: ParsedField| f.model()))
            =~= spec_groups4_state(acc).0);
        assert(cur@.map_values(|f: ParsedField| f.model()) =~= spec_groups4_state(acc).1);
    }
    while i < v.len()
        invariant
            i <= v@.len(),
            acc + spec_scan4(v@, i as int) =~= all,
            field_idx == acc.len(),
            field_idx <= i,
            groups@.map_values(
                |g: Vec<ParsedField>| g@.map_values(|f: ParsedField| f.model()),
            ) == spec_groups4_state(acc).0,
            cur@.map_values(|f: ParsedField| f.model()) == spec_groups4_state(acc).1,
        decreases v@.len() - i,
    {
        let ghost acc0 = acc;
        let n = v.len();
        if tag_at_exec(&v, i) {
            let tl: usize = if n >= 5 && i <= n - 5 && is_upper_ch(v[i + 3]) && v[i + 4] == ':' {
                3
            } else {
                2
            };
            proof {
                if tl == 3 {
                    assert(tag3_at(v@, i as int));
                } else {
                    assert(!tag3_at(v@, i as int) && tag2_at(v@, i as int));
                }
            }
            let vstart = i + tl + 2;
            proof {
                assert(vstart <= v@.len());
            }
            let vend = find_tag(&v, vstart);
            let tag = sub_chars(&v, i + 1, i + 1 + tl);
            let value = sub_chars(&v, vstart, vend);
            let trimmed = trim_chars(&value);
            let name = fin_field_name(&tag);
            let ftype = infer_fin_chars(&tag, &trimmed);
            let field = ParsedField {
                id: String::from_str("field-4-").concat(dec_u64(field_idx as u64).as_str()),
                name,
                value: FieldValue::String(from_chars(&trimmed)),
                field_type: ftype,
                original_value: String::from_str(":").concat(from_chars(&tag).as_str()).concat(
                    ": ",
                ).concat(from_chars(&trimmed).as_str()),
                position: Option::None,
            };
            let ghost fm = field.model();
            let ghost cur0 = cur@.map_values(|f: ParsedField| f.model());
            cur.push(field);
            proof {
                acc = acc0.push((v@.subrange(i + 1, i + 1 + tl), v@.subrange(
                    vstart as int,
                    vend as int,
                )));
                assert(acc.drop_last() =~= acc0);
                assert(fm == spec_block4_field(acc0.len(), acc.last().0, acc.last().1));
                assert(cur@.map_values(|f: ParsedField| f.model()) =~= cur0.push(fm));
            }
            field_idx = field_idx + 1;
            let boundary = eq_str(&tag, "59") || eq_str(&tag, "59A") || eq_str(&tag, "59F")
                || eq_str(&tag, "61") || eq_str(&tag, "86");
            if boundary {
                let ghost gs0 = groups@.map_values(
                    |g: Vec<ParsedField>| g@.map_values(|f: ParsedField| f.model()),
                );
                let ghost curm = cur@.map_values(|f: ParsedField| f.model());
                groups.push(cur);
                cur = Vec::new();
                proof {
                    assert(groups@.map_values(
                        |g: Vec<ParsedField>| g@.map_values(|f: ParsedField| f.model()),
                    ) =~= gs0.push(curm));
                    assert(cur@.map_values(|f: ParsedField| f.model()) =~= Seq::<
                        FieldModel,
                    >::empty());
                }
            }
            proof {
                let tli: int = if tag3_at(v@, i as int) {
                    3
                } else {
                    2
                };
                assert(tli == tl);
                lemma_next_tag_ge(v@, vstart as int);
                assert(spec_scan4_more(v@, i as int, vend as int) == spec_scan4(
                    v@,
                    vend as int,
                ));
                assert(spec_scan4(v@, i as int) == seq![(acc.last().0, acc.last().1)]
                    + spec_scan4(v@, vend as int));
                assert(acc + spec_scan4(v@, vend as int) =~= all);
                assert(spec_groups4_state(acc).0 == groups@.map_values(
                    |g: Vec<ParsedField>| g@.map_values(|f: ParsedField| f.model()),
                ));
                assert(spec_groups4_state(acc).1 == cur@.map_values(
                    |f: ParsedField| f.model(),
                ));
            }
            i = vend;
        } else {
            proof {
                assert(spec_scan4(v@, i as int) == spec_scan4(v@, i + 1));
            }
            i = i + 1;
        }
    }
    proof {
        assert(spec_scan4(v@, v@.len() as int) =~= Seq::<(Seq<char>, Seq<char>)>::empty());
        assert(acc =~= all);
    }
    if cur.len() > 0 {
        let ghost gs0 = groups@.map_values(
            |g: Vec<ParsedField>| g@.map_values(|f: ParsedField| f.model()),
        );
        let ghost curm = cur@.map_values(|f: ParsedField| f.model());
        groups.push(cur);
        proof {
            assert(curm.len() > 0);
            assert(groups@.map_values(
                |g: Vec<ParsedField>| g@.map_values(|f: ParsedField| f.model()),
            ) =~= gs0.push(curm));
        }
    }
    if groups.len() == 0 {
        groups.push(Vec::new());
        proof {
            assert(groups@.map_values(
                |g: Vec<ParsedField>| g@.map_values(|f: ParsedField| f.model()),
            ) =~= seq![Seq::<FieldModel>::empty()]);
        }
    }
    proof {
        assert(groups@.map_values(|g: Vec<ParsedField>| g@.map_values(|f: ParsedField| f.model()))
            =~= spec_block4_groups(content@));
    }
    groups
}

} // verus!

verus! {

// ------------------------------------------------------------------
// Assembly of the full FIN parse result.
// ------------------------------------------------------------------

/// A record as the FIN extractor emits it: always valid, with no errors.
pub open spec fn spec_fin_record(
    idx: nat,
    fields: Seq<FieldModel>,
    raw: Seq<char>,
    rtype: Seq<char>,
) -> RecordModel {
    RecordModel {
        id: "record-"@ + spec_dec(idx),
        index: idx,
        fields,
        raw,
        rtype,
        valid: true,
        errors: Option::None,
    }
}

/// The field names of a record, in field order.
pub open spec fn names_of_fields(fs: Seq<FieldModel>) -> Seq<Seq<char>>
    decreases fs.len(),
{
    if fs.len() == 0 {
        Seq::empty()
    } else {
        names_of_fields(fs.drop_last()).push(fs.last().name)
    }
}

/// All field names of a record sequence, in record and field order.
pub open spec fn all_names(rs: Seq<RecordModel>) -> Seq<Seq<char>>
    decreases rs.len(),
{
    if rs.len() == 0 {
        Seq::empty()
    } else {
        all_names(rs.drop_last()) + names_of_fields(rs.last().fields)
    }
}

/// Extends a deduplicated name list, keeping first occurrences.
pub open spec fn dedup_add(hs: Seq<Seq<char>>, ns: Seq<Seq<char>>) -> Seq<Seq<char>>
    decreases ns.len(),
{
    if ns.len() == 0 {
        hs
    } else {
        let pre = dedup_add(hs, ns.drop_last());
        if pre.contains(ns.last()) {
            pre
        } else {
            pre.push(ns.last())
        }
    }
}

/// The distinct names, in first-appearance order.
pub open spec fn dedup_names(ns: Seq<Seq<char>>) -> Seq<Seq<char>> {
    dedup_add(Seq::empty(), ns)
}

proof fn lemma_dedup_add_concat(hs: Seq<Seq<char>>, a: Seq<Seq<char>>, b: Seq<Seq<char>>)
    ensures
        dedup_add(hs, a + b) == dedup_add(dedup_add(hs, a), b),
    decreases b.len(),
{
    if b.len() == 0 {
        assert(a + b =~= a);
    } else {
        lemma_dedup_add_concat(hs, a, b.drop_last());
        assert((a + b).drop_last() =~= a + b.drop_last());
        assert((a + b).last() == b.last());
    }
}

/// The records of a FIN parse: headers for blocks 1 to 3, one transaction
/// per block 4 group, and a footer for block 5, indexed in emission order.
pub open spec fn spec_fin_records(s: Seq<char>) -> Seq<RecordModel> {
    let rs1 = match spec_block_of(s, '1') {
        Option::Some(c) => seq![
            spec_fin_record(0, spec_block1_fields(c), "{1:"@ + c + "}"@, "header"@),
        ],
        Option::None => Seq::empty(),
    };
    let rs2 = match spec_block_of(s, '2') {
        Option::Some(c) => seq![
            spec_fin_record(
                rs1.len() as nat,
                spec_block2_fields(c),
                "{2:"@ + c + "}"@,
                "header"@,
            ),
        ],
        Option::None => Seq::empty(),
    };
    let rs3 = match spec_block_of(s, '3') {
        Option::Some(c) => seq![
            spec_fin_record(
                (rs1.len() + rs2.len()) as nat,
                spec_block3_fields(spec_sub3_pairs(c, 0)),
                "{3:"@ + c + "}"@,
                "header"@,
            ),
        ],
        Option::None => Seq::empty(),
    };
    let i4 = rs1.len() + rs2.len() + rs3.len();
    let rs4 = match spec_block_of(s, '4') {
        Option::Some(c) => Seq::new(
            spec_block4_groups(c).len(),
            |k: int| spec_fin_record((i4 + k) as nat, spec_block4_groups(c)[k], c, "transaction"@),
        ),
        Option::None => Seq::empty(),
    };
    let i5 = i4 + rs4.len();
    let rs5 = match spec_block_of(s, '5') {
        Option::Some(c) => seq![
            spec_fin_record(
                i5 as nat,
                spec_block5_fields(spec_sub5_pairs(c, 0)),
                "{5:"@ + c + "}"@,
                "footer"@,
            ),
        ],
        Option::None => Seq::empty(),
    };
    rs1 + rs2 + rs3 + rs4 + rs5
}

/// The record tally of a FIN parse: every emitted record counts, the
/// trailer included, and all of them are valid.
pub open spec fn spec_fin_total(s: Seq<char>) -> nat {
    spec_fin_records(s).len()
}

/// The full model of a FIN parse result.
pub open spec fn spec_fin_data(s: Seq<char>) -> DataModel {
    let records = spec_fin_records(s);
    DataModel {
        id: "parsed-0"@,
        records,
        headers: Option::Some(dedup_names(all_names(records))),
        meta: MetaModel {
            total: spec_fin_total(s),
            valid: spec_fin_total(s),
            invalid: 0,
            parse_time: 0,
            file_size: Option::Some((vstd::utf8::encode_utf8(s).len() as usize) as nat),
            file_name: Option::None,
            encoding: Option::None,
            engine: "wasm"@,
            chunks: Option::None,
        },
    }
}

/// Adds one name to the header list unless it is already there.
pub(crate) fn insert_name(headers: &mut Vec<String>, name: &String)
    ensures
        final(headers).deep_view() == (if old(headers).deep_view().contains(name@) {
            old(headers).deep_view()
        } else {
            old(headers).deep_view().push(name@)
        }),
{
    let ghost h0 = headers.deep_view();
    let mut j: usize = 0;
    while j < headers.len()
        invariant
            j <= headers@.len(),
            h0 == headers.deep_view(),
            h0.len() == headers@.len(),
            forall|l: int| 0 <= l < h0.len() ==> h0[l] == #[trigger] headers@[l]@,
            forall|l: int| 0 <= l < j ==> h0[l] != name@,
        decreases headers@.len() - j,
    {
        if headers[j].eq(name) {
            proof {
                assert(h0[j as int] == name@);
                assert(h0.contains(name@));
            }
            return ;
        }
        j = j + 1;
    }
    proof {
        if h0.contains(name@) {
            let w = choose|w: int| 0 <= w < h0.len() && h0[w] == name@;
            assert(false);
        }
    }
    headers.push(name.clone());
    proof {
        assert(headers.deep_view() =~~= h0.push(name@));
    }
}

/// Adds every field name of a record to the header list, in order.
fn insert_names(headers: &mut Vec<String>, fields: &Vec<ParsedField>)
    ensures
        final(headers).deep_view() == dedup_add(
            old(headers).deep_view(),
            names_of_fields(fields@.map_values(|f: ParsedField| f.model())),
        ),
{
    let ghost h0 = headers.deep_view();
    let ghost fsm = fields@.map_values(|f: ParsedField| f.model());
    let mut k: usize = 0;
    proof {
        assert(fsm.take(0) =~= Seq::<FieldModel>::empty());
    }
    while k < fields.len()
        invariant
            k <= fields@.len(),
            fsm == fields@.map_values(|f: ParsedField| f.model()),
            fsm.len() == fields@.len(),
            headers.deep_view() == dedup_add(h0, names_of_fields(fsm.take(k as int))),
        decreases fields@.len() - k,
    {
        let ghost pre = names_of_fields(fsm.take(k as int));
        insert_name(headers, &fields[k].name);
        k = k + 1;
        proof {
            assert(fsm.take(k as int).drop_last() =~= fsm.take(k - 1));
            assert(fsm.take(k as int).last() == fsm[k - 1]);
            assert(fsm[k - 1].name == fields@[k - 1].name@);
            assert(names_of_fields(fsm.take(k as int)) == pre.push(fsm[k - 1].name));
            assert(names_of_fields(fsm.take(k as int)).drop_last() =~= pre);
            assert(names_of_fields(fsm.take(k as int)).last() == fsm[k - 1].name);
        }
    }
    proof {
        assert(fsm.take(fields@.len() as int) =~= fsm);
    }
}

} // verus!

verus! {

/// Parses a SWIFT FIN message. The extractor never raises a format error:
/// absent blocks are skipped and malformed content degrades to omitted or
/// empty fields.
#[verifier::rlimit(100)]
pub fn parse_fin(data: &str, config: &ParserConfig) -> (r: Result<ParsedData, ParseError>)
    ensures
        r is Ok,
        config_equiv(&r->Ok_0.config, config),
        r->Ok_0.model() == spec_fin_data(data@),
        r->Ok_0.metadata.consistent(),
{
    let total_bytes = data.len();
    let blocks = parse_blocks(data);
    let mut records: Vec<ParsedRecord> = Vec::new();
    let mut headers: Vec<String> = Vec::new();
    let ghost b1s = spec_block_of(data@, '1');
    let ghost b2s = spec_block_of(data@, '2');
    let ghost b3s = spec_block_of(data@, '3');
    let ghost b4s = spec_block_of(data@, '4');
    let ghost b5s = spec_block_of(data@, '5');
    let ghost rs1: Seq<RecordModel> = match b1s {
        Option::Some(c) => seq![
            spec_fin_record(0, spec_block1_fields(c), "{1:"@ + c + "}"@, "header"@),
        ],
        Option::None => Seq::empty(),
    };
    let ghost rs2: Seq<RecordModel> = match b2s {
        Option::Some(c) => seq![
            spec_fin_record(
                rs1.len() as nat,
                spec_block2_fields(c),
                "{2:"@ + c + "}"@,
                "header"@,
            ),
        ],
        Option::None => Seq::empty(),
    };
    let ghost rs3: Seq<RecordModel> = match b3s {
        Option::Some(c) => seq![
            spec_fin_record(
                (rs1.len() + rs2.len()) as nat,
                spec_block3_fields(spec_sub3_pairs(c, 0)),
                "{3:"@ + c + "}"@,
                "header"@,
            ),
        ],
        Option::None => Seq::empty(),
    };
    proof {
        assert(headers.deep_view() =~= Seq::<Seq<char>>::empty());
        assert(records@.map_values(|x: ParsedRecord| x.model()) =~= Seq::<RecordModel>::empty());
        assert(all_names(Seq::<RecordModel>::empty()) == Seq::<Seq<char>>::empty());
    }
    proof {
        reveal_strlit("1");
        reveal_strlit("2");
        reveal_strlit("3");
        reveal_strlit("4");
        reveal_strlit("5");
    }
    // Block 1: basic header
    match blocks.get("1") {
        Option::Some(b1) => {
            let fields = parse_block1(b1.as_str());
            insert_names(&mut headers, &fields);
            let idx = records.len();
            let rec = ParsedRecord {
                id: String::from_str("record-").concat(dec_u64(idx as u64).as_str()),
                index: idx,
                fields,
                raw: String::from_str("{1:").concat(b1.as_str()).concat("}"),
                record_type: String::from_str("header"),
                is_valid: true,
                errors: Option::None,
            };
            let ghost recsm0 = records@.map_values(|x: ParsedRecord| x.model());
            let ghost rm = rec.model();
            records.push(rec);
            proof {
                assert(b1s == Option::Some(b1@));
                assert(rm.raw =~= "{1:"@ + b1@ + "}"@);
                assert(rm == rs1[0]);
                assert(records@.map_values(|x: ParsedRecord| x.model()) =~= recsm0.push(rm));
                let recsm = records@.map_values(|x: ParsedRecord| x.model());
                assert(recsm =~= rs1);
                assert(recsm.drop_last() =~= recsm0);
                assert(all_names(recsm) == all_names(recsm0) + names_of_fields(rm.fields));
                lemma_dedup_add_concat(
                    Seq::empty(),
                    all_names(recsm0),
                    names_of_fields(rm.fields),
                );
                assert(headers.deep_view() == dedup_names(all_names(recsm)));
            }
        },
        Option::None => {
            proof {
                assert(b1s is None);
                assert(records@.map_values(|x: ParsedRecord| x.model()) =~= rs1);
            }
        },
    }
    proof {
        assert(records@.map_values(|x: ParsedRecord| x.model()) == rs1);
        assert(headers.deep_view() == dedup_names(all_names(rs1)));
        assert(records@.len() == rs1.len());
    }
    // Block 2: application header
    match blocks.get("2") {
        Option::Some(b2) => {
            let fields = parse_block2(b2.as_str());
            insert_names(&mut headers, &fields);
            let idx = records.len();
            let rec = ParsedRecord {
                id: String::from_str("record-").concat(dec_u64(idx as u64).as_str()),
                index: idx,
                fields,
                raw: String::from_str("{2:").concat(b2.as_str()).concat("}"),
                record_type: String::from_str("header"),
                is_valid: true,
                errors: Option::None,
            };
            let ghost recsm0 = records@.map_values(|x: ParsedRecord| x.model());
            let ghost rm = rec.model();
            records.push(rec);
            proof {
                assert(b2s == Option::Some(b2@));
                assert(rm.raw =~= "{2:"@ + b2@ + "}"@);
                assert(rm == rs2[0]);
                assert(records@.map_values(|x: ParsedRecord| x.model()) =~= recsm0.push(rm));
                let recsm = records@.map_values(|x: ParsedRecord| x.model());
                assert(recsm =~= rs1 + rs2);
                assert(recsm.drop_last() =~= recsm0);
                assert(all_names(recsm) == all_names(recsm0) + names_of_fields(rm.fields));
                lemma_dedup_add_concat(
                    Seq::empty(),
                    all_names(recsm0),
                    names_of_fields(rm.fields),
                );
                assert(headers.deep_view() == dedup_names(all_names(recsm)));
            }
        },
        Option::None => {
            proof {
                assert(b2s is None);
                assert(records@.map_values(|x: ParsedRecord| x.model()) =~= rs1 + rs2);
            }
        },
    }
    proof {
        assert(records@.map_values(|x: ParsedRecord| x.model()) == rs1 + rs2);
        assert(headers.deep_view() == dedup_names(all_names(rs1 + rs2)));
        assert(records@.len() == rs1.len() + rs2.len());
    }
    // Block 3: user header
    match blocks.get("3") {
        Option::Some(b3) => {
            let fields = parse_block3(b3.as_str());
            insert_names(&mut headers, &fields);
            let idx = records.len();
            let rec = ParsedRecord {
                id: String::from_str("record-").concat(dec_u64(idx as u64).as_str()),
                index: idx,
                fields,
                raw: String::from_str("{3:").concat(b3.as_str()).concat("}"),
                record_type: String::from_str("header"),
                is_valid: true,
                errors: Option::None,
            };
            let ghost recsm0 = records@.map_values(|x: ParsedRecord| x.model());
            let ghost rm = rec.model();
            records.push(rec);
            proof {
                assert(b3s == Option::Some(b3@));
                assert(rm.raw =~= "{3:"@ + b3@ + "}"@);
                assert(rm == rs3[0]);
                assert(records@.map_values(|x: ParsedRecord| x.model()) =~= recsm0.push(rm));
                let recsm = records@.map_values(|x: ParsedRecord| x.model());
                assert(recsm =~= rs1 + rs2 + rs3);
                assert(recsm.drop_last() =~= recsm0);
                assert(all_names(recsm) == all_names(recsm0) + names_of_fields(rm.fields));
                lemma_dedup_add_concat(
                    Seq::empty(),
                    all_names(recsm0),
                    names_of_fields(rm.fields),
                );
                assert(headers.deep_view() == dedup_names(all_names(recsm)));
            }
        },
        Option::None => {
            proof {
                assert(b3s is None);
                assert(records@.map_values(|x: ParsedRecord| x.model()) =~= rs1 + rs2 + rs3);
            }
        },
    }
    let ghost i4 = rs1.len() + rs2.len() + rs3.len();
    let ghost rs4: Seq<RecordModel> = match b4s {
        Option::Some(c) => Seq::new(
            spec_block4_groups(c).len(),
            |k: int| spec_fin_record((i4 + k) as nat, spec_block4_groups(c)[k], c, "transaction"@),
        ),
        Option::None => Seq::empty(),
    };
    proof {
        assert(records@.map_values(|x: ParsedRecord| x.model()) == rs1 + rs2 + rs3);
        assert(headers.deep_view() == dedup_names(all_names(rs1 + rs2 + rs3)));
        assert(records@.len() == i4);
    }
    // Block 4: text block, one record per field group
    match blocks.get("4") {
        Option::Some(b4) => {
            let ghost c = b4@;
            let ghost gsm = spec_block4_groups(c);
            let mut groups = parse_block4(b4.as_str());
            let ghost pre3 = rs1 + rs2 + rs3;
            let mut k: usize = 0;
            proof {
                assert(b4s == Option::Some(c));
                assert(groups@.map_values(
                    |g: Vec<ParsedField>| g@.map_values(|f: ParsedField| f.model()),
                ) == gsm);
                assert(gsm.len() == groups@.len());
            }
            let total_groups = groups.len();
            while k < total_groups
                invariant
                    k <= total_groups,
                    total_groups == gsm.len(),
                    groups@.len() == gsm.len(),
                    forall|j: int|
                        0 <= j < gsm.len() ==> (#[trigger] groups@[j])@.map_values(
                            |f: ParsedField| f.model(),
                        ) == gsm[j],
                    pre3 == rs1 + rs2 + rs3,
                    i4 == pre3.len(),
                    b4s == Option::Some(c),
                    b4@ == c,
                    gsm == spec_block4_groups(c),
                    rs4 == Seq::new(
                        gsm.len(),
                        |j: int| spec_fin_record((i4 + j) as nat, gsm[j], c, "transaction"@),
                    ),
                    records@.len() == i4 + k,
                    records@.map_values(|x: ParsedRecord| x.model()) == pre3 + rs4.take(k as int),
                    headers.deep_view() == dedup_names(
                        all_names(pre3 + rs4.take(k as int)),
                    ),
                decreases total_groups - k,
            {
                let fields = copy_fields(&groups[k]);
                insert_names(&mut headers, &fields);
                let idx = records.len();
                let rec = ParsedRecord {
                    id: String::from_str("record-").concat(dec_u64(idx as u64).as_str()),
                    index: idx,
                    fields,
                    raw: b4.clone(),
                    record_type: String::from_str("transaction"),
                    is_valid: true,
                    errors: Option::None,
                };
                let ghost recsm0 = records@.map_values(|x: ParsedRecord| x.model());
                let ghost rm = rec.model();
                records.push(rec);
                k = k + 1;
                proof {
                    assert(rm.fields == gsm[k - 1]);
                    assert(rs4[k - 1] == spec_fin_record(
                        (i4 + k - 1) as nat,
                        gsm[k - 1],
                        c,
                        "transaction"@,
                    ));
                    assert(rm.id == rs4[k - 1].id);
                    assert(rm.index == rs4[k - 1].index);
                    assert(rm.raw == rs4[k - 1].raw);
                    assert(rm.rtype == rs4[k - 1].rtype);
                    assert(rm == rs4[k - 1]);
                    assert(records@.map_values(|x: ParsedRecord| x.model()) =~= recsm0.push(rm));
                    let recsm = records@.map_values(|x: ParsedRecord| x.model());
                    assert(recsm =~= pre3 + rs4.take(k as int));
                    assert(recsm.drop_last() =~= recsm0);
                    assert(all_names(recsm) == all_names(recsm0) + names_of_fields(rm.fields));
                    lemma_dedup_add_concat(
                        Seq::empty(),
                        all_names(recsm0),
                        names_of_fields(rm.fields),
                    );
                    assert(headers.deep_view() == dedup_names(all_names(recsm)));
                }
            }
            proof {
                assert(rs4.take(gsm.len() as int) =~= rs4);
            }
        },
        Option::None => {
            proof {
                assert(b4s is None);
                assert(rs4 =~= Seq::<RecordModel>::empty());
                assert(records@.map_values(|x: ParsedRecord| x.model()) =~= rs1 + rs2 + rs3
                    + rs4);
                assert(headers.deep_view() == dedup_names(all_names(rs1 + rs2 + rs3 + rs4)));
            }
        },
    }
    proof {
        assert(records@.map_values(|x: ParsedRecord| x.model()) == rs1 + rs2 + rs3 + rs4);
        assert(headers.deep_view() == dedup_names(all_names(rs1 + rs2 + rs3 + rs4)));
        assert(records@.len() == i4 + rs4.len());
    }
    let ghost i5 = i4 + rs4.len();
    let ghost rs5: Seq<RecordModel> = match b5s {
        Option::Some(c) => seq![
            spec_fin_record(
                i5 as nat,
                spec_block5_fields(spec_sub5_pairs(c, 0)),
                "{5:"@ + c + "}"@,
                "footer"@,
            ),
        ],
        Option::None => Seq::empty(),
    };
    // Block 5: trailer
    match blocks.get("5") {
        Option::Some(b5) => {
            let fields = parse_block5(b5.as_str());
            insert_names(&mut headers, &fields);
            let idx = records.len();
            let rec = ParsedRecord {
                id: String::from_str("record-").concat(dec_u64(idx as u64).as_str()),
                index: idx,
                fields,
                raw: String::from_str("{5:").concat(b5.as_str()).concat("}"),
                record_type: String::from_str("footer"),
                is_valid: true,
                errors: Option::None,
            };
            let ghost recsm0 = records@.map_values(|x: ParsedRecord| x.model());
            let ghost rm = rec.model();
            records.push(rec);
            proof {
                assert(b5s == Option::Some(b5@));
                assert(rm.raw =~= "{5:"@ + b5@ + "}"@);
                assert(rm == rs5[0]);
                assert(records@.map_values(|x: ParsedRecord| x.model()) =~= recsm0.push(rm));
                let recsm = records@.map_values(|x: ParsedRecord| x.model());
                assert(recsm =~= rs1 + rs2 + rs3 + rs4 + rs5);
                assert(recsm.drop_last() =~= recsm0);
                assert(all_names(recsm) == all_names(recsm0) + names_of_fields(rm.fields));
                lemma_dedup_add_concat(
                    Seq::empty(),
                    all_names(recsm0),
                    names_of_fields(rm.fields),
                );
                assert(headers.deep_view() == dedup_names(all_names(recsm)));
            }
        },
        Option::None => {
            proof {
                assert(b5s is None);
                assert(records@.map_values(|x: ParsedRecord| x.model()) =~= rs1 + rs2 + rs3 + rs4
                    + rs5);
            }
        },
    }
    let record_count = records.len();
    let metadata = ParseMetadata {
        total_records: record_count,
        valid_records: record_count,
        invalid_records: 0,
        parse_time: 0,
        file_size: Option::Some(total_bytes),
        file_name: Option::None,
        encoding: Option::None,
        parser_engine: String::from_str("wasm"),
        chunks_processed: Option::None,
    };
    let result = ParsedData {
        id: String::from_str("parsed-0"),
        config: config.duplicate(),
        records,
        headers: Option::Some(headers),
        metadata,
    };
    proof {
        let m = result.model();
        let sm = spec_fin_data(data@);
        assert(m.records == rs1 + rs2 + rs3 + rs4 + rs5);
        assert(sm.records == spec_fin_records(data@));
        assert(spec_fin_records(data@) =~= rs1 + rs2 + rs3 + rs4 + rs5);
        assert(m.headers == Option::Some(dedup_names(all_names(m.records))));
        assert(record_count == spec_fin_records(data@).len());
        assert(m.meta =~= sm.meta);
        assert(m =~= sm);
    }
    Result::Ok(result)
}

/// A fresh vector holding copies of the given fields.
fn copy_fields(fields: &Vec<ParsedField>) -> (r: Vec<ParsedField>)
    ensures
        r@.map_values(|f: ParsedField| f.model()) == fields@.map_values(
            |f: ParsedField| f.model(),
        ),
{
    let mut r: Vec<ParsedField> = Vec::new();
    let mut i: usize = 0;
    while i < fields.len()
        invariant
            i <= fields@.len(),
            r@.len() == i,
            forall|j: int| 0 <= j < i ==> (#[trigger] r@[j]).model() == fields@[j].model(),
        decreases fields@.len() - i,
    {
        let f = &fields[i];
        r.push(copy_field(f));
        i = i + 1;
    }
    proof {
        assert(r@.map_values(|f: ParsedField| f.model()) =~= fields@.map_values(
            |f: ParsedField| f.model(),
        ));
    }
    r
}

/// A copy of one field, equal in every observable respect.
fn copy_field(f: &ParsedField) -> (r: ParsedField)
    ensures
        r.model() == f.model(),
{
    ParsedField {
        id: f.id.clone(),
        name: f.name.clone(),
        value: copy_value(&f.value),
        field_type: f.field_type.clone(),
        original_value: f.original_value.clone(),
        position: match f.position {
            Option::None => Option::None,
            Option::Some(ref p) => Option::Some(Position { start: p.start, end: p.end }),
        },
    }
}

/// A copy of one field value.
fn copy_value(v: &FieldValue) -> (r: FieldValue)
    ensures
        r.model() == v.model(),
{
    match v {
        FieldValue::String(s) => FieldValue::String(s.clone()),
        FieldValue::Number(s) => FieldValue::Number(s.clone()),
        FieldValue::Integer(n) => FieldValue::Integer(*n),
        FieldValue::Boolean(b) => FieldValue::Boolean(*b),
        FieldValue::Null => FieldValue::Null,
    }
}

} // verus!
