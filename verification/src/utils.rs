//! Format detection and small helpers.

use vstd::prelude::*;
use vstd::string::StringSliceAdditionalSpecFns;
use crate::chars::{
    spec_trim, spec_lines, spec_count, spec_join, spec_starts_with, spec_contains, to_chars,
    trim_chars, split_lines, starts_with_str, contains_str, count_char, copy_chars, join_chars,
};

verus! {

/// Sum of the lengths of the given lines.
pub open spec fn sum_lens(ls: Seq<Seq<char>>) -> nat
    decreases ls.len(),
{
    if ls.len() == 0 {
        0
    } else {
        sum_lens(ls.drop_last()) + ls.last().len()
    }
}

/// The non-empty lines, in order.
pub open spec fn spec_nonempty_lines(ls: Seq<Seq<char>>) -> Seq<Seq<char>>
    decreases ls.len(),
{
    if ls.len() == 0 {
        Seq::empty()
    } else if ls.last().len() > 0 {
        spec_nonempty_lines(ls.drop_last()).push(ls.last())
    } else {
        spec_nonempty_lines(ls.drop_last())
    }
}

/// The first ten of the non-empty lines, the sample the heuristic takes.
pub open spec fn spec_sample(ne: Seq<Seq<char>>) -> Seq<Seq<char>> {
    ne.take(
        if ne.len() > 10 {
            10int
        } else {
            ne.len() as int
        },
    )
}

/// Line `k` of the sample deviates from the average length by strictly less
/// than 5; with `n` the sample size and `s` the sampled sum, stated in
/// integers as `|l*n - s| < 5*n`.
pub open spec fn spec_close_len(sample: Seq<Seq<char>>, k: int) -> bool {
    -(5 * (sample.len() as int)) < (sample[k].len() as int) * (sample.len() as int) - (sum_lens(
        sample,
    ) as int) < 5 * (sample.len() as int)
}

/// The fixed-width heuristic over the non-empty lines: at least three of
/// them, every sampled length within strictly 5 of the sampled average, and
/// that average above 20 (`s > 20*n` in integers).
pub open spec fn spec_fixed_width_shape(ne: Seq<Seq<char>>) -> bool {
    &&& ne.len() >= 3
    &&& (forall|k: int| 0 <= k < spec_sample(ne).len() ==> #[trigger] spec_close_len(
        spec_sample(ne),
        k,
    ))
    &&& sum_lens(spec_sample(ne)) > 20 * spec_sample(ne).len()
}

/// The format tag guessed for a raw blob: an XML declaration or a known
/// root-element prefix means `iso20022`; a leading `{1:` or a `{4:` anywhere
/// means `fin`; two occurrences of a common delimiter in the first line mean
/// `csv`; consistently long lines mean `fixed-width`; otherwise `custom`.
pub open spec fn spec_detect(s: Seq<char>) -> Seq<char> {
    let t = spec_trim(s);
    if spec_starts_with(t, "<?xml"@) || spec_starts_with(t, "<Document"@) || spec_starts_with(
        t,
        "<pain"@,
    ) || spec_starts_with(t, "<camt"@) || spec_starts_with(t, "<pacs"@) {
        "iso20022"@
    } else if spec_starts_with(t, "{1:"@) || spec_contains(t, "{4:"@) {
        "fin"@
    } else {
        let first = if spec_lines(t).len() > 0 {
            spec_lines(t)[0]
        } else {
            Seq::<char>::empty()
        };
        if spec_count(first, ',') >= 2 || spec_count(first, ';') >= 2 || spec_count(first, '\t')
            >= 2 || spec_count(first, '|') >= 2 {
            "csv"@
        } else if spec_fixed_width_shape(spec_nonempty_lines(spec_lines(t))) {
            "fixed-width"@
        } else {
            "custom"@
        }
    }
}

fn fixed_width_shape(ne: &Vec<Vec<char>>) -> (b: bool)
    ensures
        b == spec_fixed_width_shape(ne.deep_view()),
{
    let ghost nev = ne.deep_view();
    if ne.len() < 3 {
        return false;
    }
    let count: usize = if ne.len() > 10 {
        10
    } else {
        ne.len()
    };
    let ghost sample = spec_sample(nev);
    proof {
        assert(nev.len() == ne@.len());
        assert(sample.len() == count);
    }
    let mut s: u128 = 0;
    let mut k: usize = 0;
    while k < count
        invariant
            k <= count,
            count <= 10,
            count <= nev.len(),
            nev == ne.deep_view(),
            nev.len() == ne@.len(),
            forall|j: int| 0 <= j < nev.len() ==> nev[j] == #[trigger] ne@[j]@,
            sample == spec_sample(nev),
            sample.len() == count,
            s == sum_lens(sample.take(k as int)),
            s <= k * 0xffff_ffff_ffff_ffffu128,
        decreases count - k,
    {
        let l = ne[k].len();
        proof {
            assert(sample.take(k + 1).drop_last() =~= sample.take(k as int));
            assert(sample.take(k + 1).last() == nev[k as int]);
            assert(l as u128 <= 0xffff_ffff_ffff_ffffu128);
        }
        s = s + (l as u128);
        k = k + 1;
    }
    proof {
        assert(sample.take(count as int) =~= sample);
    }
    let n: u128 = count as u128;
    if s <= 20 * n {
        return false;
    }
    let mut k: usize = 0;
    while k < count
        invariant
            k <= count,
            count <= 10,
            count <= nev.len(),
            3 <= nev.len(),
            nev == ne.deep_view(),
            nev.len() == ne@.len(),
            forall|j: int| 0 <= j < nev.len() ==> nev[j] == #[trigger] ne@[j]@,
            sample == spec_sample(nev),
            sample.len() == count,
            s == sum_lens(sample),
            n == count as u128,
            s > 20 * n,
            forall|j: int| 0 <= j < k ==> #[trigger] spec_close_len(sample, j),
        decreases count - k,
    {
        let l = ne[k].len();
        proof {
            assert(l as u128 <= 0xffff_ffff_ffff_ffffu128);
            assert((l as u128) * n <= 0xffff_ffff_ffff_ffffu128 * 10) by (nonlinear_arith)
                requires
                    l as u128 <= 0xffff_ffff_ffff_ffffu128,
                    n <= 10,
            ;
        }
        let ln: u128 = (l as u128) * n;
        let close = if ln >= s {
            ln - s < 5 * n
        } else {
            s - ln < 5 * n
        };
        proof {
            assert(sample[k as int] == nev[k as int]);
            assert(sample[k as int].len() == l);
            assert(close == spec_close_len(sample, k as int));
        }
        if !close {
            proof {
                if spec_fixed_width_shape(nev) {
                    assert(spec_close_len(spec_sample(nev), k as int));
                    assert(false);
                }
            }
            return false;
        }
        k = k + 1;
    }
    true
}

/// Detects the format of a raw blob.
pub fn detect_type(data: &str) -> (r: &'static str)
    ensures
        r@ == spec_detect(data@),
{
    let vc = to_chars(data);
    let t = trim_chars(&vc);
    if starts_with_str(&t, "<?xml") || starts_with_str(&t, "<Document") || starts_with_str(
        &t,
        "<pain",
    ) || starts_with_str(&t, "<camt") || starts_with_str(&t, "<pacs") {
        return "iso20022";
    }
    if starts_with_str(&t, "{1:") || contains_str(&t, "{4:") {
        return "fin";
    }
    let lines = split_lines(&t);
    let ghost lsv = lines.deep_view();
    let (cc, sc, tc, pc) = if lines.len() > 0 {
        (
            count_char(&lines[0], ','),
            count_char(&lines[0], ';'),
            count_char(&lines[0], '\t'),
            count_char(&lines[0], '|'),
        )
    } else {
        (0, 0, 0, 0)
    };
    proof {
        if lines@.len() > 0 {
            assert(lsv[0] =~= lines@[0]@);
        }
        if lsv.len() == 0 {
            assert(spec_count(Seq::<char>::empty(), ',') == 0);
            assert(spec_count(Seq::<char>::empty(), ';') == 0);
            assert(spec_count(Seq::<char>::empty(), '\t') == 0);
            assert(spec_count(Seq::<char>::empty(), '|') == 0);
        }
    }
    if cc >= 2 || sc >= 2 || tc >= 2 || pc >= 2 {
        return "csv";
    }
    let mut ne: Vec<Vec<char>> = Vec::new();
    let mut i: usize = 0;
    proof {
        assert(lsv.take(0) =~= Seq::<Seq<char>>::empty());
        assert(ne.deep_view() =~= Seq::<Seq<char>>::empty());
    }
    while i < lines.len()
        invariant
            i <= lines@.len(),
            lsv == lines.deep_view(),
            lsv.len() == lines@.len(),
            forall|j: int| 0 <= j < lsv.len() ==> lsv[j] == #[trigger] lines@[j]@,
            ne.deep_view() == spec_nonempty_lines(lsv.take(i as int)),
        decreases lines@.len() - i,
    {
        let ghost pre = ne.deep_view();
        if lines[i].len() > 0 {
            let c = copy_chars(&lines[i]);
            ne.push(c);
            proof {
                assert(ne.deep_view() =~~= pre.push(lsv[i as int]));
            }
        }
        i = i + 1;
        proof {
            assert(lsv.take(i as int).drop_last() =~= lsv.take(i - 1));
            assert(lsv.take(i as int).last() == lsv[i - 1]);
        }
    }
    proof {
        assert(lsv.take(lines@.len() as int) =~= lsv);
    }
    if fixed_width_shape(&ne) {
        "fixed-width"
    } else {
        "custom"
    }
}

/// The delimiter suggested for tabular data: the candidate among comma,
/// semicolon, tab and pipe with the strictly greatest count over the first
/// five lines; ties and all-zero counts resolve to the comma.
pub open spec fn spec_suggest(s: Seq<char>) -> char {
    let ls = spec_lines(s);
    let l5 = spec_join(
        ls.take(
            if ls.len() > 5 {
                5int
            } else {
                ls.len() as int
            },
        ),
        "\n"@,
    );
    let cc = spec_count(l5, ',');
    let sc = spec_count(l5, ';');
    let tc = spec_count(l5, '\t');
    let pc = spec_count(l5, '|');
    if sc > cc && sc > tc && sc > pc {
        ';'
    } else if tc > cc && tc > sc && tc > pc {
        '\t'
    } else if pc > cc && pc > sc && pc > tc {
        '|'
    } else {
        ','
    }
}

/// Suggests the best delimiter for tabular data.
pub fn suggest_csv_delimiter(data: &str) -> (r: char)
    ensures
        r == spec_suggest(data@),
{
    let vc = to_chars(data);
    let lines = split_lines(&vc);
    let ghost lsv = lines.deep_view();
    let count: usize = if lines.len() > 5 {
        5
    } else {
        lines.len()
    };
    let mut parts: Vec<Vec<char>> = Vec::new();
    let mut i: usize = 0;
    proof {
        assert(parts.deep_view() =~= lsv.take(0));
    }
    while i < count
        invariant
            i <= count,
            count <= lines@.len(),
            lsv == lines.deep_view(),
            lsv.len() == lines@.len(),
            forall|j: int| 0 <= j < lsv.len() ==> lsv[j] == #[trigger] lines@[j]@,
            parts.deep_view() == lsv.take(i as int),
        decreases count - i,
    {
        let ghost pre = parts.deep_view();
        let c = copy_chars(&lines[i]);
        parts.push(c);
        i = i + 1;
        proof {
            assert(parts.deep_view() =~~= pre.push(lsv[i - 1]));
            assert(lsv.take(i as int).drop_last() =~= lsv.take(i - 1));
            assert(lsv.take(i as int).last() == lsv[i - 1]);
            assert(parts.deep_view() =~= lsv.take(i as int));
        }
    }
    let mut sep: Vec<char> = Vec::new();
    sep.push('\n');
    proof {
        reveal_strlit("\n");
        assert(sep@ =~= "\n"@);
    }
    let l5 = join_chars(&parts, &sep);
    let cc = count_char(&l5, ',');
    let sc = count_char(&l5, ';');
    let tc = count_char(&l5, '\t');
    let pc = count_char(&l5, '|');
    if sc > cc && sc > tc && sc > pc {
        ';'
    } else if tc > cc && tc > sc && tc > pc {
        '\t'
    } else if pc > cc && pc > sc && pc > tc {
        '|'
    } else {
        ','
    }
}

/// The byte size of an already-resident input.
pub fn calculate_size(data: &str) -> (r: usize)
    ensures
        r == data.spec_bytes().len() as usize,
{
    data.len()
}

} // verus!
