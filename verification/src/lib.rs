//! Normalization engine for financial-data text.
//!
//! Ingests raw text in one of three formats -- delimited tabular data, the
//! ISO 20022 XML dialect, and the SWIFT FIN block syntax -- and normalizes
//! each into one shared intermediate representation of typed fields grouped
//! into records, annotated with detection and validity metadata.

pub mod chars;
pub mod types;
pub mod infer;
pub mod utils;
pub mod fin_parser;
pub mod csv_parser;
pub mod xml_parser;

use vstd::prelude::*;
use crate::chars::{to_chars, eq_str, push_char};
use crate::types::{ParsedData, ParserConfig, ParseError, ConfigModel, config_equiv};
use crate::csv_parser::{spec_csv_data, spec_csv_records, RowModel};
use crate::fin_parser::spec_fin_data;
use crate::xml_parser::spec_xml_outcome;
use crate::utils::{spec_detect, spec_suggest};

verus! {

/// Whether the engine routes an input to the tabular extractor: every
/// configured type except the two structured formats defaults to it.
pub open spec fn routes_to_csv(cfg: ConfigModel) -> bool {
    cfg.parser_type != "iso20022"@ && cfg.parser_type != "fin"@
}

/// Parses the input with the extractor the configuration selects;
/// unrecognized types default to the tabular extractor.
pub fn parse(data: &str, config: &ParserConfig) -> (r: Result<ParsedData, ParseError>)
    ensures
        routes_to_csv(config.model()) ==> r is Ok && r->Ok_0.model() == spec_csv_data(
            data@,
            config.model(),
        ),
        config.parser_type@ == "fin"@ ==> r is Ok && r->Ok_0.model() == spec_fin_data(data@),
        config.parser_type@ == "iso20022"@ ==> {
            &&& (r is Ok <==> spec_xml_outcome(data@) is Ok)
            &&& (r is Ok ==> r->Ok_0.model() == spec_xml_outcome(data@)->Ok_0.0)
            &&& (r is Err ==> r->Err_0 is XmlError && r->Err_0->XmlError_0@ == spec_xml_outcome(
                data@,
            )->Err_0)
        },
        r is Ok ==> config_equiv(&r->Ok_0.config, config),
        r is Ok ==> r->Ok_0.metadata.consistent(),
{
    proof {
        reveal_strlit("fin");
        reveal_strlit("iso20022");
        assert("fin"@.len() == 3);
        assert("iso20022"@.len() == 8);
        assert("fin"@ != "iso20022"@);
    }
    let pt = to_chars(config.parser_type.as_str());
    if eq_str(&pt, "iso20022") {
        xml_parser::parse_xml(data, config)
    } else if eq_str(&pt, "fin") {
        fin_parser::parse_fin(data, config)
    } else {
        csv_parser::parse_csv(data, config)
    }
}

/// Reports readiness of the engine.
pub fn is_ready() -> (r: bool)
    ensures
        r,
{
    true
}

/// Detects the format of a raw blob, as an owned tag.
pub fn detect_parser_type(data: &str) -> (r: String)
    ensures
        r@ == spec_detect(data@),
{
    String::from_str(utils::detect_type(data))
}

/// Suggests the best tabular delimiter, as an owned one-character string.
pub fn suggest_delimiter(data: &str) -> (r: String)
    ensures
        r@ == seq![spec_suggest(data@)],
{
    let mut r = String::new();
    push_char(&mut r, utils::suggest_csv_delimiter(data));
    proof {
        assert(r@ =~= seq![spec_suggest(data@)]);
    }
    r
}

// ------------------------------------------------------------------
// Cross-cutting laws.
// ------------------------------------------------------------------

/// Validity law of the tabular extractor: in every record it emits, the
/// validity flag holds exactly when no error list is attached.
pub proof fn lemma_csv_validity(s: Seq<char>, cfg: ConfigModel)
    ensures
        forall|i: int|
            0 <= i < spec_csv_records(s, cfg).len() ==> ((#[trigger] spec_csv_records(
                s,
                cfg,
            )[i]).valid <==> spec_csv_records(s, cfg)[i].errors is None),
{
    assert forall|i: int| 0 <= i < spec_csv_records(s, cfg).len() implies ((
    #[trigger] spec_csv_records(s, cfg)[i]).valid <==> spec_csv_records(s, cfg)[i].errors
        is None) by {
        let rows = crate::csv_parser::spec_csv_rows(
            s,
            crate::csv_parser::eff_char(cfg.delimiter, ','),
            crate::csv_parser::eff_char(cfg.quote_char, '"'),
        );
        let drows = crate::csv_parser::spec_data_rows(rows, cfg.has_header);
        match drows[i] {
            RowModel::Cells(_) => {},
            RowModel::Bad => {},
        }
    }
}

/// Idempotence of the tabular extractor: two results of parsing the same
/// input under the same configuration are structurally identical in their
/// records, header names and tallies.
pub proof fn lemma_csv_deterministic(a: &ParsedData, b: &ParsedData, s: Seq<char>, cfg: ConfigModel)
    requires
        a.model() == spec_csv_data(s, cfg),
        b.model() == spec_csv_data(s, cfg),
    ensures
        a.model().records == b.model().records,
        a.model().headers == b.model().headers,
        a.model().meta == b.model().meta,
{
}

/// Idempotence of the fixed-grammar extractor.
pub proof fn lemma_fin_deterministic(a: &ParsedData, b: &ParsedData, s: Seq<char>)
    requires
        a.model() == spec_fin_data(s),
        b.model() == spec_fin_data(s),
    ensures
        a.model().records == b.model().records,
        a.model().headers == b.model().headers,
        a.model().meta == b.model().meta,
{
}

/// Idempotence of the hierarchical flattener, on inputs it accepts.
pub proof fn lemma_xml_deterministic(a: &ParsedData, b: &ParsedData, s: Seq<char>)
    requires
        spec_xml_outcome(s) is Ok,
        a.model() == spec_xml_outcome(s)->Ok_0.0,
        b.model() == spec_xml_outcome(s)->Ok_0.0,
    ensures
        a.model().records == b.model().records,
        a.model().headers == b.model().headers,
        a.model().meta == b.model().meta,
{
}

} // verus!
