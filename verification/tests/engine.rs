use finparse::csv_parser::{parse_csv, parse_csv_with_progress};
use finparse::fin_parser::{parse_blocks, parse_block1, parse_block2, parse_fin, is_group_boundary, infer_fin_type};
use finparse::infer::{infer_type, is_date_like};
use finparse::types::{FieldValue, ParseError, ParseProgress, ParserConfig, ParseMetadata};
use finparse::utils::{calculate_size, detect_type, suggest_csv_delimiter};
use finparse::xml_parser::{humanize_field, parse_xml, parse_xml_with_progress};
use finparse::{detect_parser_type, is_ready, parse, suggest_delimiter};

fn fin_config() -> ParserConfig {
    let mut c = ParserConfig::default();
    c.parser_type = "fin".to_string();
    c
}

fn xml_config() -> ParserConfig {
    let mut c = ParserConfig::default();
    c.parser_type = "iso20022".to_string();
    c
}

#[test]
fn test_parse_simple_csv() {
    let data = "name,age,city\nAlice,30,Paris\nBob,25,London";
    let config = ParserConfig::default();
    let result = parse_csv(data, &config).unwrap();

    assert_eq!(result.records.len(), 2);
    assert_eq!(result.headers.unwrap().len(), 3);
}

#[test]
fn test_infer_types() {
    assert!(matches!(infer_type("42").0, FieldValue::Integer(42)));
    assert!(matches!(infer_type("3.14").0, FieldValue::Number(_)));
    assert!(matches!(infer_type("true").0, FieldValue::Boolean(true)));
    assert!(matches!(infer_type("").0, FieldValue::Null));
}

#[test]
fn test_date_detection() {
    assert!(is_date_like("2024-01-15"));
    assert!(is_date_like("15/01/2024"));
    assert!(is_date_like("15-01-2024"));
    assert!(!is_date_like("not a date"));
}

#[test]
fn test_parse_blocks() {
    let data = "{1:F01BANKUS33AXXX0000000000}{2:I103BANKGB2LXXXXN}";
    let blocks = parse_blocks(data);
    assert!(blocks.contains_key("1"));
    assert!(blocks.contains_key("2"));
}

#[test]
fn test_parse_block1() {
    let content = "F01BANKUS33AXXX0000000000";
    let fields = parse_block1(content);
    assert!(!fields.is_empty());
    assert_eq!(fields[0].name, "Application ID");
}

#[test]
fn test_is_ready() {
    assert!(is_ready());
}

#[test]
fn test_detect_csv() {
    let data = "name,age,city\nAlice,30,Paris";
    assert_eq!(detect_type(data), "csv");
}

#[test]
fn test_detect_xml() {
    let data = "<?xml version=\"1.0\"?><Document></Document>";
    assert_eq!(detect_type(data), "iso20022");
}

#[test]
fn test_detect_fin() {
    let data = "{1:F01BANK}{2:I103}";
    assert_eq!(detect_type(data), "fin");
}

#[test]
fn test_suggest_delimiter() {
    assert_eq!(suggest_csv_delimiter("a,b,c\n1,2,3"), ',');
    assert_eq!(suggest_csv_delimiter("a;b;c\n1;2;3"), ';');
    assert_eq!(suggest_csv_delimiter("a\tb\tc\n1\t2\t3"), '\t');
}

#[test]
fn test_humanize_field() {
    assert_eq!(humanize_field("MsgId"), "Message ID");
    assert_eq!(humanize_field("CreDtTm"), "Creation Date/Time");
    assert_eq!(humanize_field("UnknownField"), "Unknown Field");
}

#[test]
fn test_infer_boundaries() {
    let (v, t) = infer_type("");
    assert!(matches!(v, FieldValue::Null));
    assert_eq!(t, "null");

    let (v, t) = infer_type("42");
    assert!(matches!(v, FieldValue::Integer(42)));
    assert_eq!(t, "number");

    let (v, t) = infer_type("3.14");
    assert_eq!(v, FieldValue::Number("3.14".to_string()));
    assert_eq!(t, "number");

    let (v, t) = infer_type("true");
    assert!(matches!(v, FieldValue::Boolean(true)));
    assert_eq!(t, "boolean");

    let (v, t) = infer_type("2024-01-15");
    assert_eq!(v, FieldValue::String("2024-01-15".to_string()));
    assert_eq!(t, "date");

    let (v, t) = infer_type("not a date");
    assert_eq!(v, FieldValue::String("not a date".to_string()));
    assert_eq!(t, "string");
}

#[test]
fn test_infer_words_and_digits() {
    assert!(matches!(infer_type("yes").0, FieldValue::Boolean(true)));
    assert!(matches!(infer_type("No").0, FieldValue::Boolean(false)));
    assert!(matches!(infer_type("1").0, FieldValue::Boolean(true)));
    assert!(matches!(infer_type("0").0, FieldValue::Boolean(false)));
    // too large for a 64-bit integer, still float syntax
    assert!(matches!(
        infer_type("9223372036854775808").0,
        FieldValue::Number(_)
    ));
    assert!(matches!(infer_type("-7").0, FieldValue::Integer(-7)));
    assert!(matches!(infer_type("1e3").0, FieldValue::Number(_)));
    assert!(matches!(infer_type("inf").0, FieldValue::Number(_)));
}

#[test]
fn test_detect_tie_and_empty() {
    assert_eq!(suggest_csv_delimiter(""), ',');
    // ties resolve to the comma, whether or not it takes part in them
    assert_eq!(suggest_csv_delimiter("a,b;c"), ',');
    assert_eq!(suggest_csv_delimiter(";\t"), ',');
    assert_eq!(suggest_csv_delimiter("a;b\tc|d"), ',');
    assert_eq!(detect_type(""), "custom");
    assert_eq!(detect_type("just a line"), "custom");
}

#[test]
fn test_detect_fixed_width() {
    let line = "AAAAAAAAAAAAAAAAAAAAAAAAAAAAAA";
    let data = format!("{}\n{}\n{}", line, line, line);
    assert_eq!(detect_type(&data), "fixed-width");
}

#[test]
fn test_end_to_end_csv() {
    let data = "name,age,city\nAlice,30,Paris\nBob,25,London";
    let config = ParserConfig::default();
    let result = parse_csv(data, &config).unwrap();

    assert_eq!(result.records.len(), 2);
    let headers = result.headers.clone().unwrap();
    assert_eq!(headers, vec!["name", "age", "city"]);
    assert!(result.records.iter().all(|r| r.is_valid));
    assert!(result.records.iter().all(|r| r.errors.is_none()));
    assert_eq!(result.metadata.total_records, 2);
    assert_eq!(result.metadata.valid_records, 2);
    assert_eq!(result.metadata.invalid_records, 0);
    assert_eq!(
        result.metadata.total_records,
        result.metadata.valid_records + result.metadata.invalid_records
    );

    let alice = &result.records[0];
    assert_eq!(alice.fields[0].name, "name");
    assert_eq!(alice.fields[0].value, FieldValue::String("Alice".to_string()));
    assert_eq!(alice.fields[1].value, FieldValue::Integer(30));
    assert_eq!(alice.raw, "Alice,30,Paris");
}

#[test]
fn test_csv_quoting_and_bad_row() {
    let data = "a,b\n\"x,y\",2\n\"broken\"junk,3\nplain,4";
    let config = ParserConfig::default();
    let result = parse_csv(data, &config).unwrap();

    assert_eq!(result.records.len(), 3);
    assert_eq!(result.records[0].fields[0].value, FieldValue::String("x,y".to_string()));
    assert!(!result.records[1].is_valid);
    assert!(result.records[1].errors.is_some());
    assert!(result.records[1].fields.is_empty());
    assert!(result.records[2].is_valid);
    assert_eq!(result.metadata.total_records, 3);
    assert_eq!(result.metadata.valid_records, 2);
    assert_eq!(result.metadata.invalid_records, 1);
}

#[test]
fn test_csv_headerless_columns() {
    let mut config = ParserConfig::default();
    config.has_header = false;
    let result = parse_csv("1,2\n3,4", &config).unwrap();
    assert_eq!(result.records.len(), 2);
    assert_eq!(result.headers.unwrap(), vec!["Column 1", "Column 2"]);
    assert_eq!(result.records[0].fields[0].name, "Column 1");
    assert_eq!(result.records[0].record_type, "data");

    // the streaming variant resolves the same synthetic names
    let (streamed, _events) = parse_csv_with_progress("1,2\n3,4", &config).unwrap();
    assert_eq!(streamed.headers.unwrap(), vec!["Column 1", "Column 2"]);
}

#[test]
fn test_csv_carriage_returns() {
    let config = ParserConfig::default();
    // a bare carriage return ends a record, as does a full CRLF pair
    let result = parse_csv("h\ra\rb", &config).unwrap();
    assert_eq!(result.records.len(), 2);
    assert_eq!(result.records[0].fields[0].value, FieldValue::String("a".to_string()));
    let result = parse_csv("h\r\na\r\nb\r\n", &config).unwrap();
    assert_eq!(result.records.len(), 2);
    assert_eq!(result.records[1].fields[0].value, FieldValue::String("b".to_string()));
}

#[test]
fn test_csv_streaming_events() {
    let data = "name,age\nAlice,30\nBob,25";
    let config = ParserConfig::default();
    let (result, events) = parse_csv_with_progress(data, &config).unwrap();

    assert_eq!(result.records.len(), 2);
    assert!(events.len() >= 3);
    assert_eq!(events[0].phase, "initializing");
    assert_eq!(events[events.len() - 1].phase, "complete");
    assert!(events
        .iter()
        .skip(1)
        .take(events.len() - 2)
        .all(|e| e.phase == "parsing"));
    let last = &events[events.len() - 1];
    assert_eq!(last.bytes_processed, data.len());
    assert_eq!(last.total_bytes, data.len());
    assert_eq!(last.records_processed, 2);
    assert_eq!(last.percentage, 100);
}

#[test]
fn test_csv_streaming_matches_plain() {
    let data = "h1,h2\n1,x\n2,y\n3,z";
    let config = ParserConfig::default();
    let plain = parse_csv(data, &config).unwrap();
    let (streamed, _events) = parse_csv_with_progress(data, &config).unwrap();
    assert_eq!(plain.records.len(), streamed.records.len());
    for (a, b) in plain.records.iter().zip(streamed.records.iter()) {
        assert_eq!(a.id, b.id);
        assert_eq!(a.raw, b.raw);
        assert_eq!(a.is_valid, b.is_valid);
        assert_eq!(a.fields.len(), b.fields.len());
    }
    assert_eq!(plain.metadata.total_records, streamed.metadata.total_records);
}

#[test]
fn test_parse_block1_values() {
    let fields = parse_block1("F01BANKUS33AXXX0000000000");
    assert_eq!(fields[0].name, "Application ID");
    assert_eq!(fields[0].value, FieldValue::String("F".to_string()));
    assert_eq!(fields[1].name, "Service ID");
    assert_eq!(fields[1].value, FieldValue::String("01".to_string()));
    assert_eq!(fields[2].name, "Logical Terminal");
    assert_eq!(fields[2].value, FieldValue::String("BANKUS33AXXX".to_string()));
    assert_eq!(fields.len(), 5);
}

#[test]
fn test_parse_block2_directions() {
    let input = parse_block2("I103BANKGB2LXXXX");
    assert_eq!(input[0].value, FieldValue::String("Input".to_string()));
    assert_eq!(input[1].name, "Message Type");
    assert_eq!(input[1].value, FieldValue::String("103".to_string()));
    assert_eq!(input[2].name, "Destination");

    let output = parse_block2("O1031200");
    assert_eq!(output[0].value, FieldValue::String("Output".to_string()));
    assert_eq!(output[2].name, "Input Time");
    assert_eq!(output[2].value, FieldValue::String("1200".to_string()));
}

#[test]
fn test_fin_helpers() {
    assert!(is_group_boundary("59"));
    assert!(is_group_boundary("86"));
    assert!(!is_group_boundary("20"));
    assert_eq!(infer_fin_type("32A", "240101USD100,00"), "number");
    assert_eq!(infer_fin_type("32A", "nodigits"), "string");
    assert_eq!(infer_fin_type("20", "123"), "string");
}

#[test]
fn test_parse_fin_message() {
    let data = "{1:F01BANKUS33AXXX0000000000}{2:I103BANKGB2LXXXXN}{4:\n:20:REFERENCE\n:32A:240101USD100,\n:59:BENEFICIARY\n-}";
    let config = fin_config();
    let result = parse_fin(data, &config).unwrap();

    assert_eq!(result.records[0].record_type, "header");
    assert_eq!(result.records[1].record_type, "header");
    let txn = &result.records[2];
    assert_eq!(txn.record_type, "transaction");
    assert_eq!(txn.fields[0].name, "Transaction Reference Number");
    assert_eq!(txn.fields[0].value, FieldValue::String("REFERENCE".to_string()));
    assert_eq!(txn.fields[1].name, "Value Date/Currency/Amount");
    assert_eq!(txn.fields[1].field_type, "number");
    assert_eq!(txn.fields[2].name, "Beneficiary Customer");
    assert_eq!(result.metadata.total_records, result.records.len());
    assert_eq!(
        result.metadata.total_records,
        result.metadata.valid_records + result.metadata.invalid_records
    );
    assert!(result.headers.unwrap().contains(&"Application ID".to_string()));
}

#[test]
fn test_parse_fin_trailer() {
    // the top-level scan cuts block content at the first closing brace, so
    // the nested sub-block loses its own closing brace and yields no fields
    let data = "{1:F01BANKUS33AXXX0000000000}{5:{CHK:123456789ABC}}";
    let config = fin_config();
    let result = parse_fin(data, &config).unwrap();
    let footer = result.records.last().unwrap();
    assert_eq!(footer.record_type, "footer");
    assert!(footer.fields.is_empty());
    assert_eq!(result.metadata.total_records, result.records.len());
    assert_eq!(result.metadata.valid_records, result.records.len());
}

#[test]
fn test_parse_block5_fields() {
    let fields = finparse::fin_parser::parse_block5("{CHK:123456789ABC}{TNG:}");
    assert_eq!(fields.len(), 2);
    assert_eq!(fields[0].name, "Checksum");
    assert_eq!(fields[0].value, FieldValue::String("123456789ABC".to_string()));
    assert_eq!(fields[1].name, "Training");
}

#[test]
fn test_parse_block3_fields() {
    let fields = finparse::fin_parser::parse_block3("{108:REF123}{999:XYZ}");
    assert_eq!(fields.len(), 2);
    assert_eq!(fields[0].name, "Message User Reference");
    assert_eq!(fields[1].name, "999");
    assert_eq!(fields[1].value, FieldValue::String("XYZ".to_string()));
}

#[test]
fn test_parse_xml_document() {
    let data = "<?xml version=\"1.0\"?><Document xmlns=\"urn:iso:std:iso:20022:tech:xsd:pain.001.001.03\"><CstmrCdtTrfInitn><GrpHdr><MsgId>MSG001</MsgId><NbOfTxs>1</NbOfTxs></GrpHdr><CdtTrfTxInf><Amt>100.50</Amt></CdtTrfTxInf></CstmrCdtTrfInitn></Document>";
    let config = xml_config();
    let result = parse_xml(data, &config).unwrap();

    let first = &result.records[0];
    assert_eq!(first.record_type, "header");
    assert_eq!(first.fields[0].name, "Message Type");
    assert_eq!(
        first.fields[0].value,
        FieldValue::String("pain.001 - Customer Credit Transfer Initiation".to_string())
    );
    let some_fields: Vec<&str> = result
        .records
        .iter()
        .flat_map(|r| r.fields.iter())
        .map(|f| f.name.as_str())
        .collect();
    assert!(some_fields.contains(&"Message ID"));
    assert_eq!(result.metadata.total_records, result.records.len());
    assert_eq!(
        result.metadata.total_records,
        result.metadata.valid_records + result.metadata.invalid_records
    );
}

#[test]
fn test_parse_xml_shared_inference() {
    // leaf text goes through the shared inference engine: boolean words and
    // date shapes classify as they do for tabular cells
    let data = "<Document><Stmt><Flag>yes</Flag><Dt>2024-01-15</Dt></Stmt></Document>";
    let config = xml_config();
    let result = parse_xml(data, &config).unwrap();
    let fields: Vec<_> = result
        .records
        .iter()
        .flat_map(|r| r.fields.iter())
        .collect();
    assert_eq!(fields[0].value, FieldValue::Boolean(true));
    assert_eq!(fields[0].field_type, "boolean");
    assert_eq!(fields[1].value, FieldValue::String("2024-01-15".to_string()));
    assert_eq!(fields[1].field_type, "date");
}

#[test]
fn test_parse_xml_numeric_references() {
    let data = "<Document><Stmt><Nm>A&#66;C &#x44;</Nm></Stmt></Document>";
    let config = xml_config();
    let result = parse_xml(data, &config).unwrap();
    let field = &result.records[0].fields[0];
    assert_eq!(field.value, FieldValue::String("ABC D".to_string()));

    // an out-of-range reference makes the value unreadable: empty text,
    // hence no field and no record
    let bad = "<Document><Stmt><Nm>&#xD800;</Nm></Stmt></Document>";
    let result = parse_xml(bad, &config).unwrap();
    assert_eq!(result.records.len(), 0);
}

#[test]
fn test_parse_xml_malformed() {
    let data = "<Document><GrpHdr><MsgId>X</MsgId></Mismatch></Document>";
    let config = xml_config();
    let err = parse_xml(data, &config).unwrap_err();
    match err {
        ParseError::XmlError(m) => assert!(m.starts_with("Error at position ")),
        other => panic!("unexpected error {:?}", other),
    }
}

#[test]
fn test_parse_xml_streaming_events() {
    let data = "<Document><Stmt><Id>1</Id></Stmt></Document>";
    let config = xml_config();
    let (result, events) = parse_xml_with_progress(data, &config).unwrap();
    assert!(result.records.len() >= 1);
    assert_eq!(events[0].phase, "initializing");
    assert_eq!(events[events.len() - 1].phase, "complete");
}

#[test]
fn test_parse_router() {
    let config = ParserConfig::default();
    let r = parse("a,b\n1,2", &config).unwrap();
    assert_eq!(r.records.len(), 1);

    let r = parse("{1:F01BANKUS33AXXX0000000000}", &fin_config()).unwrap();
    assert_eq!(r.records[0].record_type, "header");

    let mut unknown = ParserConfig::default();
    unknown.parser_type = "mystery".to_string();
    let r = parse("x,y\n1,2", &unknown).unwrap();
    assert_eq!(r.records.len(), 1);
}

#[test]
fn test_detect_owned_wrappers() {
    assert_eq!(detect_parser_type("{1:F01BANK}"), "fin");
    assert_eq!(suggest_delimiter("a|b|c\n1|2|3"), "|");
}

#[test]
fn test_progress_percentage() {
    let p = ParseProgress::new("parsing", 50, 200, 1);
    assert_eq!(p.percentage, 25);
    let p = ParseProgress::new("parsing", 0, 0, 0);
    assert_eq!(p.percentage, 0);
    let p = ParseProgress::new("parsing", 7, 9, 1).with_message("working");
    assert_eq!(p.percentage, 77);
    assert_eq!(p.message.as_deref(), Some("working"));
}

#[test]
fn test_error_messages() {
    assert_eq!(
        ParseError::CsvError("bad".to_string()).message(),
        "Invalid CSV: bad"
    );
    assert_eq!(ParseError::Cancelled.message(), "Parse cancelled");
}

#[test]
fn test_calculate_size_counts_bytes() {
    assert_eq!(calculate_size("abc"), 3);
    assert_eq!(calculate_size("h\u{00e9}llo"), 6);
}

#[test]
fn test_metadata_default_consistent() {
    let m = ParseMetadata::default();
    assert_eq!(m.total_records, m.valid_records + m.invalid_records);
    assert_eq!(m.parser_engine, "wasm");
}
