//! Shared record/field/value/metadata/progress types and their invariants.

use vstd::prelude::*;

verus! {

/// Parser configuration, consumed by all extractors.
#[derive(Debug, Clone)]
pub struct ParserConfig {
    pub parser_type: String,
    pub name: String,
    pub description: Option<String>,
    pub delimiter: String,
    pub has_header: bool,
    pub quote_char: String,
    pub escape_char: String,
    pub field_definitions: Option<Vec<FieldDefinition>>,
    pub message_type: Option<String>,
    pub chunk_size: Option<usize>,
    pub encoding: Option<String>,
}

/// Field definition for fixed-width parsing (accepted, not consumed here).
#[derive(Debug, Clone)]
pub struct FieldDefinition {
    pub id: String,
    pub name: String,
    pub start: usize,
    pub length: usize,
    pub field_type: String,
    pub format: Option<String>,
    pub required: bool,
    pub description: Option<String>,
}

/// Field value: exactly one variant is active. Numeric text that parses as a
/// 64-bit signed integer is tagged `Integer`; other numeric text keeps its
/// decimal spelling in `Number` (the host layer may bind it to a binary
/// float; the core never computes with it).
#[derive(Debug, Clone, PartialEq)]
pub enum FieldValue {
    String(String),
    Number(String),
    Integer(i64),
    Boolean(bool),
    Null,
}

/// Position in source (reserved; the extractors here never set it).
#[derive(Debug, Clone, PartialEq)]
pub struct Position {
    pub start: usize,
    pub end: usize,
}

/// One parsed field.
#[derive(Debug, Clone)]
pub struct ParsedField {
    pub id: String,
    pub name: String,
    pub value: FieldValue,
    pub field_type: String,
    pub original_value: String,
    pub position: Option<Position>,
}

/// One parsed record.
#[derive(Debug, Clone)]
pub struct ParsedRecord {
    pub id: String,
    pub index: usize,
    pub fields: Vec<ParsedField>,
    pub raw: String,
    pub record_type: String,
    pub is_valid: bool,
    pub errors: Option<Vec<String>>,
}

/// The full parse result.
#[derive(Debug, Clone)]
pub struct ParsedData {
    pub id: String,
    pub config: ParserConfig,
    pub records: Vec<ParsedRecord>,
    pub headers: Option<Vec<String>>,
    pub metadata: ParseMetadata,
}

/// Parse metadata. Time is in whole milliseconds; the core itself does no
/// timing and reports zero, leaving measurement to the host layer.
#[derive(Debug, Clone)]
pub struct ParseMetadata {
    pub total_records: usize,
    pub valid_records: usize,
    pub invalid_records: usize,
    pub parse_time: u64,
    pub file_size: Option<usize>,
    pub file_name: Option<String>,
    pub encoding: Option<String>,
    pub parser_engine: String,
    pub chunks_processed: Option<usize>,
}

/// One progress report handed to a streaming caller.
#[derive(Debug, Clone)]
pub struct ParseProgress {
    pub phase: String,
    pub bytes_processed: usize,
    pub total_bytes: usize,
    pub records_processed: usize,
    pub percentage: u8,
    pub current_chunk: Option<usize>,
    pub total_chunks: Option<usize>,
    pub estimated_time_remaining: Option<u64>,
    pub message: Option<String>,
}

/// Parser error vocabulary. `EncodingError`, `ConfigError` and `Cancelled`
/// are part of the shared vocabulary for embedding layers; the extractors in
/// this crate never raise them.
#[derive(Debug, Clone, PartialEq)]
pub enum ParseError {
    CsvError(String),
    XmlError(String),
    FinError(String),
    EncodingError(String),
    ConfigError(String),
    Cancelled,
}

// ------------------------------------------------------------------
// Mathematical models. Contracts speak of these rather than of the
// executable structs directly.
// ------------------------------------------------------------------

/// Model of a `FieldValue`.
#[verifier::ext_equal]
pub enum ValueModel {
    VStr(Seq<char>),
    VNum(Seq<char>),
    VInt(int),
    VBool(bool),
    VNull,
}

/// Model of a `ParsedField`.
#[verifier::ext_equal]
pub struct FieldModel {
    pub id: Seq<char>,
    pub name: Seq<char>,
    pub value: ValueModel,
    pub ftype: Seq<char>,
    pub original: Seq<char>,
    pub position: Option<(nat, nat)>,
}

/// Model of a `ParsedRecord`.
#[verifier::ext_equal]
pub struct RecordModel {
    pub id: Seq<char>,
    pub index: nat,
    pub fields: Seq<FieldModel>,
    pub raw: Seq<char>,
    pub rtype: Seq<char>,
    pub valid: bool,
    pub errors: Option<Seq<Seq<char>>>,
}

/// Model of a `ParseMetadata`.
#[verifier::ext_equal]
pub struct MetaModel {
    pub total: nat,
    pub valid: nat,
    pub invalid: nat,
    pub parse_time: nat,
    pub file_size: Option<nat>,
    pub file_name: Option<Seq<char>>,
    pub encoding: Option<Seq<char>>,
    pub engine: Seq<char>,
    pub chunks: Option<nat>,
}

/// Model of a `ParsedData` (the configuration echo is stated separately,
/// as equality with the configuration that was passed in).
#[verifier::ext_equal]
pub struct DataModel {
    pub id: Seq<char>,
    pub records: Seq<RecordModel>,
    pub headers: Option<Seq<Seq<char>>>,
    pub meta: MetaModel,
}

/// Model of a `ParseProgress`.
#[verifier::ext_equal]
pub struct ProgressModel {
    pub phase: Seq<char>,
    pub bytes_processed: nat,
    pub total_bytes: nat,
    pub records_processed: nat,
    pub percentage: nat,
    pub current_chunk: Option<nat>,
    pub total_chunks: Option<nat>,
    pub estimated_time_remaining: Option<nat>,
    pub message: Option<Seq<char>>,
}

impl ParseProgress {
    pub open spec fn model(&self) -> ProgressModel {
        ProgressModel {
            phase: self.phase@,
            bytes_processed: self.bytes_processed as nat,
            total_bytes: self.total_bytes as nat,
            records_processed: self.records_processed as nat,
            percentage: self.percentage as nat,
            current_chunk: match self.current_chunk {
                Option::None => Option::None,
                Option::Some(n) => Option::Some(n as nat),
            },
            total_chunks: match self.total_chunks {
                Option::None => Option::None,
                Option::Some(n) => Option::Some(n as nat),
            },
            estimated_time_remaining: match self.estimated_time_remaining {
                Option::None => Option::None,
                Option::Some(n) => Option::Some(n as nat),
            },
            message: match self.message {
                Option::None => Option::None,
                Option::Some(ref s) => Option::Some(s@),
            },
        }
    }
}

/// The slice of the configuration that the extractors consume.
#[verifier::ext_equal]
pub struct ConfigModel {
    pub parser_type: Seq<char>,
    pub delimiter: Seq<char>,
    pub has_header: bool,
    pub quote_char: Seq<char>,
}

impl FieldValue {
    pub open spec fn model(&self) -> ValueModel {
        match self {
            FieldValue::String(s) => ValueModel::VStr(s@),
            FieldValue::Number(s) => ValueModel::VNum(s@),
            FieldValue::Integer(n) => ValueModel::VInt(*n as int),
            FieldValue::Boolean(b) => ValueModel::VBool(*b),
            FieldValue::Null => ValueModel::VNull,
        }
    }
}

impl ParsedField {
    pub open spec fn model(&self) -> FieldModel {
        FieldModel {
            id: self.id@,
            name: self.name@,
            value: self.value.model(),
            ftype: self.field_type@,
            original: self.original_value@,
            position: match self.position {
                Option::None => Option::None,
                Option::Some(p) => Option::Some((p.start as nat, p.end as nat)),
            },
        }
    }
}

impl ParsedRecord {
    pub open spec fn model(&self) -> RecordModel {
        RecordModel {
            id: self.id@,
            index: self.index as nat,
            fields: self.fields@.map_values(|f: ParsedField| f.model()),
            raw: self.raw@,
            rtype: self.record_type@,
            valid: self.is_valid,
            errors: match self.errors {
                Option::None => Option::None,
                Option::Some(v) => Option::Some(v.deep_view()),
            },
        }
    }
}

impl ParseMetadata {
    pub open spec fn model(&self) -> MetaModel {
        MetaModel {
            total: self.total_records as nat,
            valid: self.valid_records as nat,
            invalid: self.invalid_records as nat,
            parse_time: self.parse_time as nat,
            file_size: match self.file_size {
                Option::None => Option::None,
                Option::Some(n) => Option::Some(n as nat),
            },
            file_name: match self.file_name {
                Option::None => Option::None,
                Option::Some(ref s) => Option::Some(s@),
            },
            encoding: match self.encoding {
                Option::None => Option::None,
                Option::Some(ref s) => Option::Some(s@),
            },
            engine: self.parser_engine@,
            chunks: match self.chunks_processed {
                Option::None => Option::None,
                Option::Some(n) => Option::Some(n as nat),
            },
        }
    }

    /// The record-count invariant every extractor maintains.
    pub open spec fn consistent(&self) -> bool {
        self.total_records == self.valid_records + self.invalid_records
    }
}

impl ParsedData {
    pub open spec fn model(&self) -> DataModel {
        DataModel {
            id: self.id@,
            records: self.records@.map_values(|r: ParsedRecord| r.model()),
            headers: match self.headers {
                Option::None => Option::None,
                Option::Some(ref v) => Option::Some(v.deep_view()),
            },
            meta: self.metadata.model(),
        }
    }
}

/// Model of a `FieldDefinition`.
#[verifier::ext_equal]
pub struct FieldDefModel {
    pub id: Seq<char>,
    pub name: Seq<char>,
    pub start: nat,
    pub length: nat,
    pub ftype: Seq<char>,
    pub format: Option<Seq<char>>,
    pub required: bool,
    pub description: Option<Seq<char>>,
}

impl FieldDefinition {
    pub open spec fn model(&self) -> FieldDefModel {
        FieldDefModel {
            id: self.id@,
            name: self.name@,
            start: self.start as nat,
            length: self.length as nat,
            ftype: self.field_type@,
            format: opt_string_view(&self.format),
            required: self.required,
            description: opt_string_view(&self.description),
        }
    }
}

pub open spec fn opt_string_view(o: &Option<String>) -> Option<Seq<char>> {
    match *o {
        Option::None => Option::None,
        Option::Some(s) => Option::Some(s@),
    }
}

/// Two configurations that agree in every observable respect; the shape the
/// echoed configuration of a parse result keeps.
pub open spec fn config_equiv(a: &ParserConfig, b: &ParserConfig) -> bool {
    &&& a.parser_type@ == b.parser_type@
    &&& a.name@ == b.name@
    &&& opt_string_view(&a.description) == opt_string_view(&b.description)
    &&& a.delimiter@ == b.delimiter@
    &&& a.has_header == b.has_header
    &&& a.quote_char@ == b.quote_char@
    &&& a.escape_char@ == b.escape_char@
    &&& (a.field_definitions is Some <==> b.field_definitions is Some)
    &&& (a.field_definitions is Some ==> a.field_definitions->0@.map_values(
        |d: FieldDefinition| d.model(),
    ) == b.field_definitions->0@.map_values(|d: FieldDefinition| d.model()))
    &&& opt_string_view(&a.message_type) == opt_string_view(&b.message_type)
    &&& a.chunk_size == b.chunk_size
    &&& opt_string_view(&a.encoding) == opt_string_view(&b.encoding)
}

impl ParserConfig {
    pub open spec fn model(&self) -> ConfigModel {
        ConfigModel {
            parser_type: self.parser_type@,
            delimiter: self.delimiter@,
            has_header: self.has_header,
            quote_char: self.quote_char@,
        }
    }

    /// A field-for-field copy of the configuration.
    pub fn duplicate(&self) -> (r: ParserConfig)
        ensures
            config_equiv(&r, self),
    {
        ParserConfig {
            parser_type: self.parser_type.clone(),
            name: self.name.clone(),
            description: clone_opt_string(&self.description),
            delimiter: self.delimiter.clone(),
            has_header: self.has_header,
            quote_char: self.quote_char.clone(),
            escape_char: self.escape_char.clone(),
            field_definitions: clone_field_definitions(&self.field_definitions),
            message_type: clone_opt_string(&self.message_type),
            chunk_size: self.chunk_size,
            encoding: clone_opt_string(&self.encoding),
        }
    }
}

fn clone_opt_string(o: &Option<String>) -> (r: Option<String>)
    ensures
        r == *o,
{
    if let Option::Some(s) = o {
        let c = s.clone();
        proof {
            assert(c == *s);
            assert(*o == Option::Some(*s));
        }
        Option::Some(c)
    } else {
        proof {
            assert(*o is None);
        }
        Option::None
    }
}

fn clone_field_definition(d: &FieldDefinition) -> (r: FieldDefinition)
    ensures
        r == *d,
{
    FieldDefinition {
        id: d.id.clone(),
        name: d.name.clone(),
        start: d.start,
        length: d.length,
        field_type: d.field_type.clone(),
        format: clone_opt_string(&d.format),
        required: d.required,
        description: clone_opt_string(&d.description),
    }
}

fn clone_field_definitions(o: &Option<Vec<FieldDefinition>>) -> (r: Option<Vec<FieldDefinition>>)
    ensures
        r is Some <==> *o is Some,
        *o is Some ==> r->0@ == o->0@,
{
    match o {
        Option::None => Option::None,
        Option::Some(v) => {
            let mut out: Vec<FieldDefinition> = Vec::new();
            let mut i: usize = 0;
            while i < v.len()
                invariant
                    i <= v@.len(),
                    out@ == v@.take(i as int),
                decreases v@.len() - i,
            {
                out.push(clone_field_definition(&v[i]));
                i = i + 1;
                proof {
                    assert(out@ =~= v@.take(i as int));
                }
            }
            proof {
                assert(out@ =~= v@);
            }
            Option::Some(out)
        },
    }
}

impl Default for ParserConfig {
    /// The tabular configuration: comma-delimited, quoted with `"`, with a
    /// header row.
    fn default() -> (r: Self)
        ensures
            r.parser_type@ == "csv"@,
            r.name@ == "Parser"@,
            r.description is None,
            r.delimiter@ == ","@,
            r.has_header == true,
            r.quote_char@ == "\""@,
            r.escape_char@ == "\\"@,
            r.field_definitions is None,
            r.message_type is None,
            r.chunk_size is None,
            r.encoding is None,
    {
        ParserConfig {
            parser_type: String::from_str("csv"),
            name: String::from_str("Parser"),
            description: Option::None,
            delimiter: String::from_str(","),
            has_header: true,
            quote_char: String::from_str("\""),
            escape_char: String::from_str("\\"),
            field_definitions: Option::None,
            message_type: Option::None,
            chunk_size: Option::None,
            encoding: Option::None,
        }
    }
}

impl Default for ParseMetadata {
    fn default() -> (r: Self)
        ensures
            r.total_records == 0,
            r.valid_records == 0,
            r.invalid_records == 0,
            r.parse_time == 0,
            r.file_size is None,
            r.file_name is None,
            r.encoding is None,
            r.parser_engine@ == "wasm"@,
            r.chunks_processed is None,
            r.consistent(),
    {
        ParseMetadata {
            total_records: 0,
            valid_records: 0,
            invalid_records: 0,
            parse_time: 0,
            file_size: Option::None,
            file_name: Option::None,
            encoding: Option::None,
            parser_engine: String::from_str("wasm"),
            chunks_processed: Option::None,
        }
    }
}

/// Integer percentage: the floor of `bytes_processed / total_bytes * 100`,
/// zero when `total_bytes` is zero, saturated to the `u8` range.
pub open spec fn spec_percentage(bytes_processed: nat, total_bytes: nat) -> nat {
    if total_bytes == 0 {
        0
    } else if bytes_processed * 100 / total_bytes > 255 {
        255
    } else {
        bytes_processed * 100 / total_bytes
    }
}

impl ParseProgress {
    pub fn new(phase: &str, bytes_processed: usize, total_bytes: usize, records: usize) -> (r:
        Self)
        ensures
            r.phase@ == phase@,
            r.bytes_processed == bytes_processed,
            r.total_bytes == total_bytes,
            r.records_processed == records,
            r.percentage == spec_percentage(bytes_processed as nat, total_bytes as nat),
            r.current_chunk is None,
            r.total_chunks is None,
            r.estimated_time_remaining is None,
            r.message is None,
    {
        let percentage: u8 = if total_bytes > 0 {
            let p: u128 = (bytes_processed as u128) * 100 / (total_bytes as u128);
            if p > 255 {
                255
            } else {
                p as u8
            }
        } else {
            0
        };
        ParseProgress {
            phase: String::from_str(phase),
            bytes_processed,
            total_bytes,
            records_processed: records,
            percentage,
            current_chunk: Option::None,
            total_chunks: Option::None,
            estimated_time_remaining: Option::None,
            message: Option::None,
        }
    }

    pub fn with_message(self, message: &str) -> (r: Self)
        ensures
            r.phase == self.phase,
            r.bytes_processed == self.bytes_processed,
            r.total_bytes == self.total_bytes,
            r.records_processed == self.records_processed,
            r.percentage == self.percentage,
            r.current_chunk == self.current_chunk,
            r.total_chunks == self.total_chunks,
            r.estimated_time_remaining == self.estimated_time_remaining,
            r.message is Some && r.message->0@ == message@,
    {
        ParseProgress { message: Option::Some(String::from_str(message)), ..self }
    }
}

impl ParseError {
    /// A human-readable rendering of the error, in the fixed shapes the
    /// error vocabulary documents.
    pub fn message(&self) -> (r: String)
        ensures
            r@ == self.spec_message(),
    {
        match self {
            ParseError::CsvError(d) => String::from_str("Invalid CSV: ").concat(d.as_str()),
            ParseError::XmlError(d) => String::from_str("Invalid XML: ").concat(d.as_str()),
            ParseError::FinError(d) => String::from_str("Invalid FIN message: ").concat(
                d.as_str(),
            ),
            ParseError::EncodingError(d) => String::from_str("Encoding error: ").concat(
                d.as_str(),
            ),
            ParseError::ConfigError(d) => String::from_str("Configuration error: ").concat(
                d.as_str(),
            ),
            ParseError::Cancelled => String::from_str("Parse cancelled"),
        }
    }

    pub open spec fn spec_message(&self) -> Seq<char> {
        match self {
            ParseError::CsvError(d) => "Invalid CSV: "@ + d@,
            ParseError::XmlError(d) => "Invalid XML: "@ + d@,
            ParseError::FinError(d) => "Invalid FIN message: "@ + d@,
            ParseError::EncodingError(d) => "Encoding error: "@ + d@,
            ParseError::ConfigError(d) => "Configuration error: "@ + d@,
            ParseError::Cancelled => "Parse cancelled"@,
        }
    }
}

} // verus!
