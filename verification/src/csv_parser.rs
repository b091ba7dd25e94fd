//! Delimited table extractor.
//!
//! A streaming tokenizer over a quoted, delimiter-separated grammar with an
//! optional header row. Parsing is flexible: records may have differing
//! field counts, and a record whose quoting is malformed becomes an invalid
//! record without aborting the remaining rows.

use vstd::prelude::*;
use crate::chars::{
    spec_dec, dec_u64, spec_trim, trim_chars, spec_join, join_chars, to_chars, from_chars,
};
use crate::infer::{spec_infer, infer_chars};
use crate::types::{
    FieldModel, ValueModel, RecordModel, DataModel, MetaModel, ProgressModel, ParsedField,
    FieldValue, ParsedRecord, ParsedData, ParseMetadata, ParseProgress, ParserConfig, ParseError,
    ConfigModel, config_equiv, spec_percentage,
};

verus! {

// ------------------------------------------------------------------
// The tokenizer: a character-at-a-time state machine over the quoted,
// delimiter-separated grammar.
// ------------------------------------------------------------------

/// One tokenized row: its cells, or a mark that its quoting was malformed.
#[verifier::ext_equal]
pub enum RowModel {
    Cells(Seq<Seq<char>>),
    Bad,
}

/// One tokenized row in executable form.
pub enum CsvRow {
    Cells(Vec<Vec<char>>),
    Bad,
}

impl CsvRow {
    pub open spec fn model(&self) -> RowModel {
        match self {
            CsvRow::Cells(cs) => RowModel::Cells(cs.deep_view()),
            CsvRow::Bad => RowModel::Bad,
        }
    }
}

/// The tokenizer mode between two characters.
pub enum CsvMode {
    /// At the start of a record, nothing accumulated.
    StartRecord,
    /// Just after a delimiter: a new cell is pending.
    StartField,
    /// Inside an unquoted cell.
    InField,
    /// Inside a quoted cell.
    InQuoted,
    /// Saw a quote inside a quoted cell: either an escaped quote or the
    /// close of the cell.
    QuoteInQuoted,
    /// Malformed quoting: skipping to the end of the record.
    ErrRow,
}

/// The tokenizer state.
#[verifier::ext_equal]
pub struct CsvState {
    pub rows: Seq<RowModel>,
    pub row: Seq<Seq<char>>,
    pub cell: Seq<char>,
    pub mode: CsvMode,
}

pub open spec fn csv_init() -> CsvState {
    CsvState { rows: Seq::empty(), row: Seq::empty(), cell: Seq::empty(), mode: CsvMode::StartRecord }
}

/// Ends the current record with the pending cell appended.
pub open spec fn csv_emit(st: CsvState, cell: Seq<char>) -> CsvState {
    CsvState {
        rows: st.rows.push(RowModel::Cells(st.row.push(cell))),
        row: Seq::empty(),
        cell: Seq::empty(),
        mode: CsvMode::StartRecord,
    }
}

/// One step of the tokenizer on character `c`, with delimiter `d` and
/// quote `q`.
pub open spec fn csv_step(st: CsvState, c: char, d: char, q: char) -> CsvState {
    match st.mode {
        CsvMode::StartRecord => {
            if c == q {
                CsvState { mode: CsvMode::InQuoted, ..st }
            } else if c == d {
                CsvState { row: st.row.push(st.cell), cell: Seq::empty(), mode: CsvMode::StartField, ..st }
            } else if c == '\n' || c == '\r' {
                st
            } else {
                CsvState { cell: st.cell.push(c), mode: CsvMode::InField, ..st }
            }
        },
        CsvMode::StartField => {
            if c == q {
                CsvState { mode: CsvMode::InQuoted, ..st }
            } else if c == d {
                CsvState { row: st.row.push(st.cell), cell: Seq::empty(), mode: CsvMode::StartField, ..st }
            } else if c == '\n' || c == '\r' {
                csv_emit(st, st.cell)
            } else {
                CsvState { cell: st.cell.push(c), mode: CsvMode::InField, ..st }
            }
        },
        CsvMode::InField => {
            if c == d {
                CsvState { row: st.row.push(st.cell), cell: Seq::empty(), mode: CsvMode::StartField, ..st }
            } else if c == '\n' || c == '\r' {
                csv_emit(st, st.cell)
            } else {
                CsvState { cell: st.cell.push(c), ..st }
            }
        },
        CsvMode::InQuoted => {
            if c == q {
                CsvState { mode: CsvMode::QuoteInQuoted, ..st }
            } else {
                CsvState { cell: st.cell.push(c), ..st }
            }
        },
        CsvMode::QuoteInQuoted => {
            if c == q {
                CsvState { cell: st.cell.push(q), mode: CsvMode::InQuoted, ..st }
            } else if c == d {
                CsvState { row: st.row.push(st.cell), cell: Seq::empty(), mode: CsvMode::StartField, ..st }
            } else if c == '\n' || c == '\r' {
                csv_emit(st, st.cell)
            } else {
                CsvState { mode: CsvMode::ErrRow, ..st }
            }
        },
        CsvMode::ErrRow => {
            if c == '\n' || c == '\r' {
                CsvState {
                    rows: st.rows.push(RowModel::Bad),
                    row: Seq::empty(),
                    cell: Seq::empty(),
                    mode: CsvMode::StartRecord,
                }
            } else {
                st
            }
        },
    }
}

pub open spec fn csv_run(s: Seq<char>, d: char, q: char) -> CsvState {
    s.fold_left(csv_init(), |st: CsvState, c: char| csv_step(st, c, d, q))
}

/// What the end of input does to the last, unterminated record.
pub open spec fn csv_finalize(st: CsvState) -> Seq<RowModel> {
    match st.mode {
        CsvMode::StartRecord => st.rows,
        CsvMode::StartField => st.rows.push(RowModel::Cells(st.row.push(st.cell))),
        CsvMode::InField => st.rows.push(RowModel::Cells(st.row.push(st.cell))),
        CsvMode::InQuoted => st.rows.push(RowModel::Bad),
        CsvMode::QuoteInQuoted => st.rows.push(RowModel::Cells(st.row.push(st.cell))),
        CsvMode::ErrRow => st.rows.push(RowModel::Bad),
    }
}

/// The rows of a delimited input.
pub open spec fn spec_csv_rows(s: Seq<char>, d: char, q: char) -> Seq<RowModel> {
    csv_finalize(csv_run(s, d, q))
}

/// Tokenizes the input into rows.
fn tokenize_csv(v: &Vec<char>, d: char, q: char) -> (r: Vec<CsvRow>)
    ensures
        r@.map_values(|row: CsvRow| row.model()) == spec_csv_rows(v@, d, q),
{
    let mut rows: Vec<CsvRow> = Vec::new();
    let mut row: Vec<Vec<char>> = Vec::new();
    let mut cell: Vec<char> = Vec::new();
    let mut mode = CsvMode::StartRecord;
    let mut i: usize = 0;
    proof {
        assert(v@.take(0) =~= Seq::<char>::empty());
        assert(rows@.map_values(|x: CsvRow| x.model()) =~= Seq::<RowModel>::empty());
        assert(row.deep_view() =~= Seq::<Seq<char>>::empty());
        assert(cell@ =~= Seq::<char>::empty());
    }
    while i < v.len()
        invariant
            i <= v@.len(),
            csv_run(v@.take(i as int), d, q) == (CsvState {
                rows: rows@.map_values(|x: CsvRow| x.model()),
                row: row.deep_view(),
                cell: cell@,
                mode: mode,
            }),
        decreases v@.len() - i,
    {
        let ghost st0 = csv_run(v@.take(i as int), d, q);
        let ghost rows0 = rows@.map_values(|x: CsvRow| x.model());
        let ghost row0 = row.deep_view();
        let ghost cell0 = cell@;
        let c = v[i];
        match mode {
            CsvMode::StartRecord => {
                if c == q {
                    mode = CsvMode::InQuoted;
                } else if c == d {
                    row.push(cell);
                    cell = Vec::new();
                    mode = CsvMode::StartField;
                    proof {
                        assert(row.deep_view() =~~= row0.push(cell0));
                    }
                } else if c == '\n' || c == '\r' {
                } else {
                    cell.push(c);
                    mode = CsvMode::InField;
                }
            },
            CsvMode::StartField => {
                if c == q {
                    mode = CsvMode::InQuoted;
                } else if c == d {
                    row.push(cell);
                    cell = Vec::new();
                    mode = CsvMode::StartField;
                    proof {
                        assert(row.deep_view() =~~= row0.push(cell0));
                    }
                } else if c == '\n' || c == '\r' {
                    row.push(cell);
                    cell = Vec::new();
                    proof {
                        assert(row.deep_view() =~~= row0.push(cell0));
                    }
                    rows.push(CsvRow::Cells(row));
                    row = Vec::new();
                    mode = CsvMode::StartRecord;
                    proof {
                        assert(rows@.map_values(|x: CsvRow| x.model()) =~~= rows0.push(
                            RowModel::Cells(row0.push(cell0)),
                        ));
                        assert(row.deep_view() =~= Seq::<Seq<char>>::empty());
                    }
                } else {
                    cell.push(c);
                    mode = CsvMode::InField;
                }
            },
            CsvMode::InField => {
                if c == d {
                    row.push(cell);
                    cell = Vec::new();
                    mode = CsvMode::StartField;
                    proof {
                        assert(row.deep_view() =~~= row0.push(cell0));
                    }
                } else if c == '\n' || c == '\r' {
                    row.push(cell);
                    cell = Vec::new();
                    proof {
                        assert(row.deep_view() =~~= row0.push(cell0));
                    }
                    rows.push(CsvRow::Cells(row));
                    row = Vec::new();
                    mode = CsvMode::StartRecord;
                    proof {
                        assert(rows@.map_values(|x: CsvRow| x.model()) =~~= rows0.push(
                            RowModel::Cells(row0.push(cell0)),
                        ));
                        assert(row.deep_view() =~= Seq::<Seq<char>>::empty());
                    }
                } else {
                    cell.push(c);
                }
            },
            CsvMode::InQuoted => {
                if c == q {
                    mode = CsvMode::QuoteInQuoted;
                } else {
                    cell.push(c);
                }
            },
            CsvMode::QuoteInQuoted => {
                if c == q {
                    cell.push(q);
                    mode = CsvMode::InQuoted;
                } else if c == d {
                    row.push(cell);
                    cell = Vec::new();
                    mode = CsvMode::StartField;
                    proof {
                        assert(row.deep_view() =~~= row0.push(cell0));
                    }
                } else if c == '\n' || c == '\r' {
                    row.push(cell);
                    cell = Vec::new();
                    proof {
                        assert(row.deep_view() =~~= row0.push(cell0));
                    }
                    rows.push(CsvRow::Cells(row));
                    row = Vec::new();
                    mode = CsvMode::StartRecord;
                    proof {
                        assert(rows@.map_values(|x: CsvRow| x.model()) =~~= rows0.push(
                            RowModel::Cells(row0.push(cell0)),
                        ));
                        assert(row.deep_view() =~= Seq::<Seq<char>>::empty());
                    }
                } else {
                    mode = CsvMode::ErrRow;
                }
            },
            CsvMode::ErrRow => {
                if c == '\n' || c == '\r' {
                    rows.push(CsvRow::Bad);
                    row = Vec::new();
                    cell = Vec::new();
                    mode = CsvMode::StartRecord;
                    proof {
                        assert(rows@.map_values(|x: CsvRow| x.model()) =~~= rows0.push(
                            RowModel::Bad,
                        ));
                        assert(row.deep_view() =~= Seq::<Seq<char>>::empty());
                    }
                }
            },
        }
        i = i + 1;
        proof {
            assert(v@.take(i as int).drop_last() =~= v@.take(i - 1));
            assert(v@.take(i as int).last() == v@[i - 1]);
            assert(csv_run(v@.take(i as int), d, q) == csv_step(st0, v@[i - 1], d, q));
        }
    }
    proof {
        assert(v@.take(v@.len() as int) =~= v@);
    }
    let ghost stf = csv_run(v@, d, q);
    let ghost rowsf = rows@.map_values(|x: CsvRow| x.model());
    let ghost rowf = row.deep_view();
    let ghost cellf = cell@;
    match mode {
        CsvMode::StartRecord => {},
        CsvMode::StartField => {
            row.push(cell);
            proof {
                assert(row.deep_view() =~~= rowf.push(cellf));
            }
            rows.push(CsvRow::Cells(row));
            proof {
                assert(rows@.map_values(|x: CsvRow| x.model()) =~~= rowsf.push(
                    RowModel::Cells(rowf.push(cellf)),
                ));
            }
        },
        CsvMode::InField => {
            row.push(cell);
            proof {
                assert(row.deep_view() =~~= rowf.push(cellf));
            }
            rows.push(CsvRow::Cells(row));
            proof {
                assert(rows@.map_values(|x: CsvRow| x.model()) =~~= rowsf.push(
                    RowModel::Cells(rowf.push(cellf)),
                ));
            }
        },
        CsvMode::InQuoted => {
            rows.push(CsvRow::Bad);
            proof {
                assert(rows@.map_values(|x: CsvRow| x.model()) =~~= rowsf.push(RowModel::Bad));
            }
        },
        CsvMode::QuoteInQuoted => {
            row.push(cell);
            proof {
                assert(row.deep_view() =~~= rowf.push(cellf));
            }
            rows.push(CsvRow::Cells(row));
            proof {
                assert(rows@.map_values(|x: CsvRow| x.model()) =~~= rowsf.push(
                    RowModel::Cells(rowf.push(cellf)),
                ));
            }
        },
        CsvMode::ErrRow => {
            rows.push(CsvRow::Bad);
            proof {
                assert(rows@.map_values(|x: CsvRow| x.model()) =~~= rowsf.push(RowModel::Bad));
            }
        },
    }
    rows
}

} // verus!

verus! {

// ------------------------------------------------------------------
// Header resolution and record construction.
// ------------------------------------------------------------------

/// The first character of a configured delimiter or quote, or the default.
pub open spec fn eff_char(s: Seq<char>, dflt: char) -> char {
    if s.len() > 0 {
        s[0]
    } else {
        dflt
    }
}

/// The synthetic name of column `j` (zero-based).
pub open spec fn spec_col_name(j: nat) -> Seq<char> {
    "Column "@ + spec_dec(j + 1)
}

/// The header names: the trimmed cells of the first row when a header is
/// configured, else synthetic names generated from the width of the first
/// row; empty when there are no rows or the first row is malformed.
pub open spec fn spec_csv_headers(rows: Seq<RowModel>, has_header: bool) -> Seq<Seq<char>> {
    if rows.len() > 0 && rows[0] is Cells {
        let cs = rows[0]->Cells_0;
        if has_header {
            cs.map_values(|c: Seq<char>| spec_trim(c))
        } else {
            Seq::new(cs.len(), |j: int| spec_col_name(j as nat))
        }
    } else {
        Seq::empty()
    }
}

/// The name of field `j`: the matching header cell, else a synthetic
/// column name.
pub open spec fn spec_field_name(headers: Seq<Seq<char>>, j: nat) -> Seq<char> {
    if j < headers.len() {
        headers[j as int]
    } else {
        spec_col_name(j)
    }
}

/// One tabular field: type-inferred value with the raw cell kept verbatim.
pub open spec fn spec_csv_field(i: nat, j: nat, name: Seq<char>, cell: Seq<char>) -> FieldModel {
    FieldModel {
        id: "field-"@ + spec_dec(i) + "-"@ + spec_dec(j),
        name,
        value: spec_infer(cell).0,
        ftype: spec_infer(cell).1,
        original: cell,
        position: Option::None,
    }
}

/// One tabular record: a row of typed fields rejoined with the configured
/// delimiter, or an invalid marker record for a malformed row.
pub open spec fn spec_csv_record(
    i: nat,
    row: RowModel,
    headers: Seq<Seq<char>>,
    delim: Seq<char>,
    has_header: bool,
) -> RecordModel {
    match row {
        RowModel::Cells(cs) => RecordModel {
            id: "record-"@ + spec_dec(i),
            index: i,
            fields: Seq::new(
                cs.len(),
                |j: int| spec_csv_field(i, j as nat, spec_field_name(headers, j as nat), cs[j]),
            ),
            raw: spec_join(cs, delim),
            rtype: if i == 0 && has_header {
                "header"@
            } else {
                "data"@
            },
            valid: true,
            errors: Option::None,
        },
        RowModel::Bad => RecordModel {
            id: "record-"@ + spec_dec(i),
            index: i,
            fields: Seq::empty(),
            raw: Seq::empty(),
            rtype: "data"@,
            valid: false,
            errors: Option::Some(seq!["malformed quoted field"@]),
        },
    }
}

/// The rows that become records: all rows, minus the header row when one
/// is configured.
pub open spec fn spec_data_rows(rows: Seq<RowModel>, has_header: bool) -> Seq<RowModel> {
    if has_header && rows.len() > 0 {
        rows.skip(1)
    } else {
        rows
    }
}

/// How many of the rows tokenized cleanly.
pub open spec fn spec_valid_count(rows: Seq<RowModel>) -> nat
    decreases rows.len(),
{
    if rows.len() == 0 {
        0
    } else {
        spec_valid_count(rows.drop_last()) + (if rows.last() is Cells {
            1nat
        } else {
            0nat
        })
    }
}

/// The records of a tabular parse.
pub open spec fn spec_csv_records(s: Seq<char>, cfg: ConfigModel) -> Seq<RecordModel> {
    let rows = spec_csv_rows(s, eff_char(cfg.delimiter, ','), eff_char(cfg.quote_char, '"'));
    let headers = spec_csv_headers(rows, cfg.has_header);
    let drows = spec_data_rows(rows, cfg.has_header);
    Seq::new(
        drows.len(),
        |i: int| spec_csv_record(i as nat, drows[i], headers, cfg.delimiter, cfg.has_header),
    )
}

/// The full model of a tabular parse result.
pub open spec fn spec_csv_data(s: Seq<char>, cfg: ConfigModel) -> DataModel {
    let rows = spec_csv_rows(s, eff_char(cfg.delimiter, ','), eff_char(cfg.quote_char, '"'));
    let drows = spec_data_rows(rows, cfg.has_header);
    DataModel {
        id: "parsed-0"@,
        records: spec_csv_records(s, cfg),
        headers: Option::Some(spec_csv_headers(rows, cfg.has_header)),
        meta: MetaModel {
            total: drows.len(),
            valid: spec_valid_count(drows),
            invalid: (drows.len() - spec_valid_count(drows)) as nat,
            parse_time: 0,
            file_size: Option::Some((vstd::utf8::encode_utf8(s).len() as usize) as nat),
            file_name: Option::None,
            encoding: Option::None,
            engine: "wasm"@,
            chunks: Option::None,
        },
    }
}

/// Builds the name of column `j`.
fn col_name(j: usize) -> (r: String)
    requires
        j < usize::MAX,
    ensures
        r@ == spec_col_name(j as nat),
{
    String::from_str("Column ").concat(dec_u64((j + 1) as u64).as_str())
}

/// Resolves the header names of a tokenized input.
fn csv_headers_vec(rows: &Vec<CsvRow>, has_header: bool) -> (r: Vec<String>)
    ensures
        r.deep_view() == spec_csv_headers(
            rows@.map_values(|x: CsvRow| x.model()),
            has_header,
        ),
{
    let ghost rowsm = rows@.map_values(|x: CsvRow| x.model());
    let mut headers: Vec<String> = Vec::new();
    if rows.len() == 0 {
        proof {
            assert(headers.deep_view() =~= spec_csv_headers(rowsm, has_header));
        }
        return headers;
    }
    match &rows[0] {
        CsvRow::Bad => {
            proof {
                assert(rowsm[0] is Bad);
                assert(headers.deep_view() =~= spec_csv_headers(rowsm, has_header));
            }
            headers
        },
        CsvRow::Cells(cs) => {
            let ghost csm = cs.deep_view();
            proof {
                assert(rowsm[0] == RowModel::Cells(csm));
            }
            let mut j: usize = 0;
            if has_header {
                while j < cs.len()
                    invariant
                        j <= cs@.len(),
                        csm == cs.deep_view(),
                        csm.len() == cs@.len(),
                        forall|l: int| 0 <= l < csm.len() ==> csm[l] == #[trigger] cs@[l]@,
                        headers.deep_view() =~= csm.map_values(
                            |c: Seq<char>| spec_trim(c),
                        ).take(j as int),
                    decreases cs@.len() - j,
                {
                    let ghost h0 = headers.deep_view();
                    let t = trim_chars(&cs[j]);
                    headers.push(from_chars(&t));
                    j = j + 1;
                    proof {
                        assert(headers.deep_view() =~~= h0.push(spec_trim(csm[j - 1])));
                        assert(headers.deep_view() =~= csm.map_values(
                            |c: Seq<char>| spec_trim(c),
                        ).take(j as int));
                    }
                }
                proof {
                    assert(csm.map_values(|c: Seq<char>| spec_trim(c)).take(csm.len() as int)
                        =~= csm.map_values(|c: Seq<char>| spec_trim(c)));
                }
            } else {
                while j < cs.len()
                    invariant
                        j <= cs@.len(),
                        csm == cs.deep_view(),
                        csm.len() == cs@.len(),
                        headers.deep_view() =~= Seq::new(
                            csm.len(),
                            |l: int| spec_col_name(l as nat),
                        ).take(j as int),
                    decreases cs@.len() - j,
                {
                    let ghost h0 = headers.deep_view();
                    headers.push(col_name(j));
                    j = j + 1;
                    proof {
                        assert(headers.deep_view() =~~= h0.push(spec_col_name((j - 1) as nat)));
                        assert(headers.deep_view() =~= Seq::new(
                            csm.len(),
                            |l: int| spec_col_name(l as nat),
                        ).take(j as int));
                    }
                }
                proof {
                    let full = Seq::new(csm.len(), |l: int| spec_col_name(l as nat));
                    assert(full.take(csm.len() as int) =~= full);
                }
            }
            proof {
                assert(headers.deep_view() == spec_csv_headers(rowsm, has_header));
            }
            headers
        },
    }
}

/// Builds one record from a tokenized row.
fn csv_record_of_row(
    i: usize,
    row: &CsvRow,
    headers: &Vec<String>,
    dv: &Vec<char>,
    has_header: bool,
) -> (r: ParsedRecord)
    ensures
        r.model() == spec_csv_record(
            i as nat,
            row.model(),
            headers.deep_view(),
            dv@,
            has_header,
        ),
{
    match row {
        CsvRow::Bad => {
            let mut errs: Vec<String> = Vec::new();
            errs.push(String::from_str("malformed quoted field"));
            let r = ParsedRecord {
                id: String::from_str("record-").concat(dec_u64(i as u64).as_str()),
                index: i,
                fields: Vec::new(),
                raw: String::new(),
                record_type: String::from_str("data"),
                is_valid: false,
                errors: Option::Some(errs),
            };
            proof {
                assert(r.model().errors == Option::Some(seq!["malformed quoted field"@]))
                    by {
                    assert(r.errors->0.deep_view() =~= seq!["malformed quoted field"@]);
                };
                assert(r.model().fields =~= Seq::<FieldModel>::empty());
            }
            r
        },
        CsvRow::Cells(cs) => {
            let ghost csm = cs.deep_view();
            let ghost hm = headers.deep_view();
            let mut fields: Vec<ParsedField> = Vec::new();
            let mut j: usize = 0;
            while j < cs.len()
                invariant
                    j <= cs@.len(),
                    csm == cs.deep_view(),
                    csm.len() == cs@.len(),
                    forall|l: int| 0 <= l < csm.len() ==> csm[l] == #[trigger] cs@[l]@,
                    hm == headers.deep_view(),
                    hm.len() == headers@.len(),
                    forall|l: int| 0 <= l < hm.len() ==> hm[l] == #[trigger] headers@[l]@,
                    fields@.len() == j,
                    forall|l: int|
                        0 <= l < j ==> (#[trigger] fields@[l]).model() == spec_csv_field(
                            i as nat,
                            l as nat,
                            spec_field_name(hm, l as nat),
                            csm[l],
                        ),
                decreases cs@.len() - j,
            {
                let name: String = if j < headers.len() {
                    headers[j].clone()
                } else {
                    col_name(j)
                };
                let (fv, ft) = infer_chars(&cs[j]);
                let field = ParsedField {
                    id: String::from_str("field-").concat(dec_u64(i as u64).as_str()).concat(
                        "-",
                    ).concat(dec_u64(j as u64).as_str()),
                    name,
                    value: fv,
                    field_type: ft,
                    original_value: from_chars(&cs[j]),
                    position: Option::None,
                };
                proof {
                    assert(field.model() == spec_csv_field(
                        i as nat,
                        j as nat,
                        spec_field_name(hm, j as nat),
                        csm[j as int],
                    ));
                }
                fields.push(field);
                j = j + 1;
            }
            let raw = join_chars(cs, dv);
            let r = ParsedRecord {
                id: String::from_str("record-").concat(dec_u64(i as u64).as_str()),
                index: i,
                fields,
                raw: from_chars(&raw),
                record_type: if i == 0 && has_header {
                    String::from_str("header")
                } else {
                    String::from_str("data")
                },
                is_valid: true,
                errors: Option::None,
            };
            proof {
                assert(r.model().fields =~= spec_csv_record(
                    i as nat,
                    RowModel::Cells(csm),
                    hm,
                    dv@,
                    has_header,
                ).fields);
                assert(r.model() == spec_csv_record(
                    i as nat,
                    RowModel::Cells(csm),
                    hm,
                    dv@,
                    has_header,
                ));
            }
            r
        },
    }
}

} // verus!

verus! {

/// Parses delimited tabular data.
#[verifier::rlimit(100)]
pub fn parse_csv(data: &str, config: &ParserConfig) -> (r: Result<ParsedData, ParseError>)
    ensures
        r is Ok,
        config_equiv(&r->Ok_0.config, config),
        r->Ok_0.model() == spec_csv_data(data@, config.model()),
        r->Ok_0.metadata.consistent(),
{
    let v = to_chars(data);
    let total_bytes = data.len();
    let dv = to_chars(config.delimiter.as_str());
    let d: char = if dv.len() > 0 {
        dv[0]
    } else {
        ','
    };
    let qv = to_chars(config.quote_char.as_str());
    let q: char = if qv.len() > 0 {
        qv[0]
    } else {
        '"'
    };
    let rows = tokenize_csv(&v, d, q);
    let ghost rowsm = rows@.map_values(|x: CsvRow| x.model());
    let headers = csv_headers_vec(&rows, config.has_header);
    let base: usize = if config.has_header && rows.len() > 0 {
        1
    } else {
        0
    };
    let ghost drows = spec_data_rows(rowsm, config.has_header);
    proof {
        assert(drows =~= rowsm.skip(base as int));
    }
    let nrows = rows.len();
    let total_rows = nrows - base;
    let mut records: Vec<ParsedRecord> = Vec::new();
    let mut valid_count: usize = 0;
    let mut invalid_count: usize = 0;
    let mut k: usize = 0;
    proof {
        assert(drows.take(0) =~= Seq::<RowModel>::empty());
    }
    while k < total_rows
        invariant
            k <= total_rows,
            nrows == rows@.len(),
            base + total_rows == nrows,
            base + total_rows == rows@.len(),
            rowsm == rows@.map_values(|x: CsvRow| x.model()),
            rowsm.len() == rows@.len(),
            drows =~= rowsm.skip(base as int),
            drows.len() == total_rows,
            headers.deep_view() == spec_csv_headers(rowsm, config.has_header),
            dv@ == config.delimiter@,
            records@.len() == k,
            forall|l: int|
                0 <= l < k ==> (#[trigger] records@[l]).model() == spec_csv_record(
                    l as nat,
                    drows[l],
                    spec_csv_headers(rowsm, config.has_header),
                    config.delimiter@,
                    config.has_header,
                ),
            valid_count == spec_valid_count(drows.take(k as int)),
            valid_count + invalid_count == k,
        decreases total_rows - k,
    {
        let rec = csv_record_of_row(k, &rows[base + k], &headers, &dv, config.has_header);
        proof {
            assert(rows@[base + k].model() == rowsm[base + k]);
            assert(rowsm[base + k] == drows[k as int]);
            assert(drows.take(k + 1).drop_last() =~= drows.take(k as int));
            assert(drows.take(k + 1).last() == drows[k as int]);
        }
        if rec.is_valid {
            valid_count = valid_count + 1;
            proof {
                assert(drows[k as int] is Cells);
            }
        } else {
            invalid_count = invalid_count + 1;
            proof {
                assert(drows[k as int] is Bad);
            }
        }
        records.push(rec);
        k = k + 1;
    }
    proof {
        assert(drows.take(total_rows as int) =~= drows);
    }
    let metadata = ParseMetadata {
        total_records: total_rows,
        valid_records: valid_count,
        invalid_records: invalid_count,
        parse_time: 0,
        file_size: Option::Some(total_bytes),
        file_name: Option::None,
        encoding: Option::None,
        parser_engine: String::from_str("wasm"),
        chunks_processed: Option::None,
    };
    let result = ParsedData {
        id: String::from_str("parsed-0"),
        config: config.duplicate(),
        records,
        headers: Option::Some(headers),
        metadata,
    };
    proof {
        let m = result.model();
        let sm = spec_csv_data(data@, config.model());
        assert(m.records =~= spec_csv_records(data@, config.model()));
        assert(m.meta =~= sm.meta);
        assert(m =~= sm);
    }
    Result::Ok(result)
}

// ------------------------------------------------------------------
// The streaming variant: identical parsing, plus progress reports whose
// cadence is bounded by whole-percent advances of an estimated byte
// position.
// ------------------------------------------------------------------

/// A progress report as the streaming extractors shape it.
pub open spec fn spec_prog(
    phase: Seq<char>,
    b: nat,
    t: nat,
    rp: nat,
    msg: Seq<char>,
) -> ProgressModel {
    ProgressModel {
        phase,
        bytes_processed: b,
        total_bytes: t,
        records_processed: rp,
        percentage: spec_percentage(b, t),
        current_chunk: Option::None,
        total_chunks: Option::None,
        estimated_time_remaining: Option::None,
        message: Option::Some(msg),
    }
}

/// The per-record progress reports and the last reported byte estimate:
/// row `i` estimates `(i+1)*t/(i+2)` bytes and reports only when that
/// passed the last report by more than a hundredth of the input.
pub open spec fn spec_stream_fold(drows: Seq<RowModel>, t: nat) -> (Seq<ProgressModel>, nat)
    decreases drows.len(),
{
    if drows.len() == 0 {
        (Seq::empty(), 0)
    } else {
        let rec = spec_stream_fold(drows.drop_last(), t);
        let i = (drows.len() - 1) as nat;
        if drows.last() is Cells {
            let bytes = (i + 1) * t / (i + 2);
            if bytes > rec.1 + t / 100 {
                (
                    rec.0.push(
                        spec_prog(
                            "parsing"@,
                            bytes,
                            t,
                            i + 1,
                            "Parsed "@ + spec_dec(i + 1) + " records..."@,
                        ),
                    ),
                    bytes,
                )
            } else {
                rec
            }
        } else {
            rec
        }
    }
}

/// The full progress sequence of a streaming tabular parse: one
/// initializing report, the per-record reports, one final complete report.
pub open spec fn spec_csv_events(s: Seq<char>, cfg: ConfigModel) -> Seq<ProgressModel> {
    let t = (vstd::utf8::encode_utf8(s).len() as usize) as nat;
    let rows = spec_csv_rows(s, eff_char(cfg.delimiter, ','), eff_char(cfg.quote_char, '"'));
    let drows = spec_data_rows(rows, cfg.has_header);
    seq![
        spec_prog("initializing"@, 0, t, 0, "Starting CSV parse..."@),
        spec_prog("parsing"@, 0, t, 0, "Parsing records..."@),
    ] + spec_stream_fold(drows, t).0 + seq![
        spec_prog("complete"@, t, t, drows.len(), "Parsing complete"@),
    ]
}

/// Parses delimited tabular data with logic identical to `parse_csv`,
/// additionally reporting progress as a finite sequence of events: exactly
/// one `initializing` and one `complete` report bracket zero or more
/// `parsing` reports.
#[verifier::rlimit(100)]
pub fn parse_csv_with_progress(data: &str, config: &ParserConfig) -> (r: Result<
    (ParsedData, Vec<ParseProgress>),
    ParseError,
>)
    ensures
        r is Ok,
        config_equiv(&r->Ok_0.0.config, config),
        r->Ok_0.0.model() == spec_csv_data(data@, config.model()),
        r->Ok_0.0.metadata.consistent(),
        r->Ok_0.1@.map_values(|p: ParseProgress| p.model()) == spec_csv_events(
            data@,
            config.model(),
        ),
{
    let v = to_chars(data);
    let total_bytes = data.len();
    let dv = to_chars(config.delimiter.as_str());
    let d: char = if dv.len() > 0 {
        dv[0]
    } else {
        ','
    };
    let qv = to_chars(config.quote_char.as_str());
    let q: char = if qv.len() > 0 {
        qv[0]
    } else {
        '"'
    };
    let mut events: Vec<ParseProgress> = Vec::new();
    events.push(
        ParseProgress::new("initializing", 0, total_bytes, 0).with_message(
            "Starting CSV parse...",
        ),
    );
    events.push(
        ParseProgress::new("parsing", 0, total_bytes, 0).with_message("Parsing records..."),
    );
    let ghost t = total_bytes as nat;
    let ghost head2: Seq<ProgressModel> = seq![
        spec_prog("initializing"@, 0, t, 0, "Starting CSV parse..."@),
        spec_prog("parsing"@, 0, t, 0, "Parsing records..."@),
    ];
    proof {
        assert(events@.map_values(|p: ParseProgress| p.model()) =~= head2);
    }
    let rows = tokenize_csv(&v, d, q);
    let ghost rowsm = rows@.map_values(|x: CsvRow| x.model());
    let headers = csv_headers_vec(&rows, config.has_header);
    let base: usize = if config.has_header && rows.len() > 0 {
        1
    } else {
        0
    };
    let ghost drows = spec_data_rows(rowsm, config.has_header);
    proof {
        assert(drows =~= rowsm.skip(base as int));
    }
    let nrows = rows.len();
    let total_rows = nrows - base;
    let interval: u128 = (total_bytes / 100) as u128;
    let mut records: Vec<ParsedRecord> = Vec::new();
    let mut valid_count: usize = 0;
    let mut invalid_count: usize = 0;
    let mut last: u128 = 0;
    let mut k: usize = 0;
    proof {
        assert(drows.take(0) =~= Seq::<RowModel>::empty());
    }
    while k < total_rows
        invariant
            k <= total_rows,
            nrows == rows@.len(),
            base + total_rows == nrows,
            base + total_rows == rows@.len(),
            rowsm == rows@.map_values(|x: CsvRow| x.model()),
            rowsm.len() == rows@.len(),
            drows =~= rowsm.skip(base as int),
            drows.len() == total_rows,
            headers.deep_view() == spec_csv_headers(rowsm, config.has_header),
            dv@ == config.delimiter@,
            t == total_bytes as nat,
            interval == t / 100,
            last <= total_bytes as u128,
            records@.len() == k,
            forall|l: int|
                0 <= l < k ==> (#[trigger] records@[l]).model() == spec_csv_record(
                    l as nat,
                    drows[l],
                    spec_csv_headers(rowsm, config.has_header),
                    config.delimiter@,
                    config.has_header,
                ),
            valid_count == spec_valid_count(drows.take(k as int)),
            valid_count + invalid_count == k,
            last == spec_stream_fold(drows.take(k as int), t).1,
            events@.map_values(|p: ParseProgress| p.model()) == head2 + spec_stream_fold(
                drows.take(k as int),
                t,
            ).0,
        decreases total_rows - k,
    {
        let ghost evs0 = events@.map_values(|p: ParseProgress| p.model());
        let ghost fold0 = spec_stream_fold(drows.take(k as int), t);
        let rec = csv_record_of_row(k, &rows[base + k], &headers, &dv, config.has_header);
        proof {
            assert(rows@[base + k].model() == rowsm[base + k]);
            assert(rowsm[base + k] == drows[k as int]);
            assert(drows.take(k + 1).drop_last() =~= drows.take(k as int));
            assert(drows.take(k + 1).last() == drows[k as int]);
        }
        if rec.is_valid {
            valid_count = valid_count + 1;
            proof {
                assert(drows[k as int] is Cells);
            }
            // estimate the byte position from the record index alone
            proof {
                assert((k as u128) + 1 <= 0xffff_ffff_ffff_ffffu128);
                assert(total_bytes as u128 <= 0xffff_ffff_ffff_ffffu128);
                assert(((k as u128) + 1) * (total_bytes as u128) <= 0xffff_ffff_ffff_ffffu128
                    * 0xffff_ffff_ffff_ffffu128) by (nonlinear_arith)
                    requires
                        (k as u128) + 1 <= 0xffff_ffff_ffff_ffffu128,
                        total_bytes as u128 <= 0xffff_ffff_ffff_ffffu128,
                ;
            }
            let num: u128 = ((k as u128) + 1) * (total_bytes as u128);
            let den: u128 = (k as u128) + 2;
            let bytes: u128 = num / den;
            proof {
                assert(bytes * den <= num) by (nonlinear_arith)
                    requires
                        den > 0,
                        bytes == num / den,
                ;
                assert(num <= den * (total_bytes as u128)) by (nonlinear_arith)
                    requires
                        num == ((k as u128) + 1) * (total_bytes as u128),
                        den == (k as u128) + 2,
                ;
                assert(bytes <= total_bytes as u128) by (nonlinear_arith)
                    requires
                        bytes * den <= den * (total_bytes as u128),
                        den > 0,
                ;
            }
            if bytes > last + interval {
                let msg = String::from_str("Parsed ").concat(
                    dec_u64((k as u64) + 1).as_str(),
                ).concat(" records...");
                let p = ParseProgress::new("parsing", bytes as usize, total_bytes, k + 1)
                    .with_message(msg.as_str());
                let ghost bn = ((k + 1) as nat) * t / ((k + 2) as nat);
                proof {
                    assert(bytes as nat == bn);
                    assert(p.model() =~= spec_prog(
                        "parsing"@,
                        bn,
                        t,
                        (k + 1) as nat,
                        "Parsed "@ + spec_dec((k + 1) as nat) + " records..."@,
                    ));
                }
                events.push(p);
                last = bytes;
                proof {
                    assert(events@.map_values(|p2: ParseProgress| p2.model()) =~= evs0.push(
                        p.model(),
                    ));
                    assert(spec_stream_fold(drows.take(k + 1), t).0 =~= fold0.0.push(
                        spec_prog(
                            "parsing"@,
                            bn,
                            t,
                            (k + 1) as nat,
                            "Parsed "@ + spec_dec((k + 1) as nat) + " records..."@,
                        ),
                    ));
                    assert(events@.map_values(|p2: ParseProgress| p2.model()) =~= head2
                        + spec_stream_fold(drows.take(k + 1), t).0);
                }
            } else {
                proof {
                    assert(bytes as nat == ((k + 1) as nat) * t / ((k + 2) as nat));
                    assert(spec_stream_fold(drows.take(k + 1), t) == fold0);
                }
            }
        } else {
            invalid_count = invalid_count + 1;
            proof {
                assert(drows[k as int] is Bad);
                assert(spec_stream_fold(drows.take(k + 1), t) == fold0);
            }
        }
        records.push(rec);
        k = k + 1;
    }
    proof {
        assert(drows.take(total_rows as int) =~= drows);
    }
    let p = ParseProgress::new("complete", total_bytes, total_bytes, records.len()).with_message(
        "Parsing complete",
    );
    proof {
        assert(p.model() =~= spec_prog("complete"@, t, t, drows.len(), "Parsing complete"@));
    }
    let ghost evs_before = events@.map_values(|p2: ParseProgress| p2.model());
    events.push(p);
    proof {
        assert(events@.map_values(|p2: ParseProgress| p2.model()) =~= evs_before + seq![
            spec_prog("complete"@, t, t, drows.len(), "Parsing complete"@),
        ]);
        assert(events@.map_values(|p2: ParseProgress| p2.model()) =~= spec_csv_events(
            data@,
            config.model(),
        ));
    }
    let metadata = ParseMetadata {
        total_records: total_rows,
        valid_records: valid_count,
        invalid_records: invalid_count,
        parse_time: 0,
        file_size: Option::Some(total_bytes),
        file_name: Option::None,
        encoding: Option::None,
        parser_engine: String::from_str("wasm"),
        chunks_processed: Option::None,
    };
    let result = ParsedData {
        id: String::from_str("parsed-0"),
        config: config.duplicate(),
        records,
        headers: Option::Some(headers),
        metadata,
    };
    proof {
        let m = result.model();
        let sm = spec_csv_data(data@, config.model());
        assert(m.records =~= spec_csv_records(data@, config.model()));
        assert(m.meta =~= sm.meta);
        assert(m =~= sm);
    }
    Result::Ok((result, events))
}

} // verus!
