//! The inputs of a local run: files, sources, fixtures, parameters and tokens.

use serde_json::Value;
use sloper_extension::component::Finding;
use sloper_extension::inputs::{
    accept_item, accept_parameters, admit_token, bind_parameters, check_bounded, check_sources, file_map,
    fixture_item, fixture_line, require_reader, rewrite_sources, select_action, serialized_exceeds, source_allowed,
    supply_source, take_object, text, token_variable, validate_object, validate_sized, LocalSource, SourceFault, Variable,
    MAX_FIXTURE_ITEM,
};
use sloper_extension::json::{Json, Number};
use sloper_extension::manifest::{Action, Capability, Connection, Manifest, Mode, Resource};
use sloper_extension::sealing::new_source_id;
use sloper_extension::store::Inputs;
use sloper_extension::supply::{supply_sources, supply_under, Fixture, FixtureLine};
use sloper_extension::table::Table;
use sloper_extension::tool::Error;

const SCHEMA: &str = r#"{"type":"object","properties":{"id":{"type":"string"},"number":{"type":"string"},"document":{"type":["string","null"],"format":"source","mediaTypes":["application/pdf"]}},"required":["id","number"]}"#;

fn from_value(value: &Value) -> Json {
    match value {
        Value::Null => Json::Null,
        Value::Bool(flag) => Json::Bool(*flag),
        Value::Number(number) => Json::Number(match (number.as_u64(), number.as_i64()) {
            (Some(unsigned), _) => Number::Unsigned(unsigned),
            (None, Some(negative)) => Number::Negative(negative),
            _ => Number::Decimal(number.to_string()),
        }),
        Value::String(text) => Json::Text(text.clone()),
        Value::Array(items) => Json::Array(items.iter().map(from_value).collect()),
        Value::Object(members) => {
            Json::Object(members.iter().map(|(name, value)| (name.clone(), from_value(value))).collect())
        },
    }
}

fn json(text: &str) -> Json {
    from_value(&serde_json::from_str(text).unwrap())
}

fn arguments(text: &str) -> Vec<(String, Json)> {
    match json(text) {
        Json::Object(members) => members,
        _ => panic!("arguments are an object"),
    }
}

fn table<T>(entries: Vec<(&str, T)>) -> Table<T> {
    let mut table = Table::new();
    for (name, entry) in entries {
        assert!(table.insert(name.to_owned(), entry).is_none());
    }
    table
}

fn pdf() -> LocalSource {
    LocalSource {
        filename: "invoice.pdf".to_owned(),
        media_type: "application/pdf".to_owned(),
        bytes: b"%PDF-1.7".to_vec(),
    }
}

fn words<T>(result: Result<T, Error>) -> String {
    match result {
        Ok(_) => panic!("the input is refused"),
        Err(error) => error.message(),
    }
}

fn finding() -> Finding {
    Finding { code: "SCHEMA".to_owned(), location: "/id".to_owned(), message: "missing".to_owned() }
}

#[test]
fn duplicate_fixture_names_are_usage_errors() {
    let duplicated = arguments(r#"{"resource":["invoices=a.jsonl","invoices=b.jsonl"]}"#);
    let error = file_map(&duplicated, "resource").err().unwrap();
    assert_eq!(error.message(), "duplicate resource key invoices");
    assert_eq!(error.exit_code(), 2);
    let files = file_map(&arguments(r#"{"resource":["b=x=y","a=z"]}"#), "resource").ok().unwrap();
    assert_eq!(
        files.entries.iter().map(|(name, path)| (name.as_str(), path.as_str())).collect::<Vec<_>>(),
        [("a", "z"), ("b", "x=y")]
    );
    for malformed in [r#"{"resource":["a="]}"#, r#"{"resource":["=a"]}"#, r#"{"resource":["a"]}"#, r#"{"resource":[1]}"#] {
        assert_eq!(words(file_map(&arguments(malformed), "resource")), "resource must be NAME=PATH");
    }
    assert_eq!(words(file_map(&arguments(r#"{"resource":"a=b"}"#), "resource")), "resource must be an array");
    assert!(file_map(&arguments("{}"), "resource").ok().unwrap().entries.is_empty());
}

#[test]
fn source_constraints_check_real_bytes_and_media() {
    let source = pdf();
    assert!(source_allowed(&json(r#"{"maxBytes":8,"mediaTypes":["application/pdf"]}"#), &source));
    assert!(!source_allowed(&json(r#"{"maxBytes":7}"#), &source));
    assert!(!source_allowed(&json(r#"{"mediaTypes":["image/png"]}"#), &source));
}

#[test]
fn fixtures_validate_each_json_line_and_rewrite_explicit_source_keys() {
    let schema = json(SCHEMA);
    let line = b"{\"id\":\"one\",\"number\":\"A\",\"document\":\"receipt\"}\n";
    let ids = table(vec![("receipt", "src_1".to_owned())]);
    let sources = table(vec![("src_1", pdf())]);
    let item = fixture_line(line, "invoices.jsonl", 1).ok().unwrap();
    assert_eq!(item, &line[..line.len() - 1]);
    let parsed = from_value(&serde_json::from_slice(item).unwrap());
    let rewritten = fixture_item(&schema, Some(parsed), &ids, "invoices.jsonl", 1).ok().unwrap();
    assert_eq!(rewritten.get_text("document"), Some("src_1"));
    assert!(accept_item(&schema, &rewritten, &sources, Ok(())).is_ok());
    assert_eq!(
        words(fixture_item(&schema, None, &ids, "invoices.jsonl", 1)),
        "invoices.jsonl:1: expected a JSON object without duplicate keys"
    );
    let incomplete = json(r#"{"id":"one"}"#);
    assert!(matches!(
        accept_item(&schema, &incomplete, &sources, Err(vec![finding()])),
        Err(Error::Validation(_))
    ));
}

#[test]
fn fixture_lines_lose_their_end_and_are_bounded() {
    assert_eq!(fixture_line(b"a\r\n", "f", 1).ok().unwrap(), b"a");
    assert_eq!(fixture_line(b"a\n", "f", 1).ok().unwrap(), b"a");
    assert_eq!(fixture_line(b"a\r", "f", 1).ok().unwrap(), b"a");
    assert_eq!(fixture_line(b"\n\n", "f", 1).ok().unwrap(), b"\n");
    assert!(fixture_line(&vec![b'a'; MAX_FIXTURE_ITEM], "f", 1).is_ok());
    assert_eq!(
        words(fixture_line(&vec![b'a'; MAX_FIXTURE_ITEM + 1], "f", 12)),
        "f:12: reader item exceeds 1 MiB"
    );
}

#[test]
fn object_byte_limits_count_escaped_unicode_without_buffering() {
    let value = json(r#"{"id":"é","number":"quote\"\n"}"#);
    let length = r#"{"id":"é","number":"quote\"\n"}"#.len();
    assert!(validate_object(true, &value, length, "parameters", Ok(())).is_ok());
    assert!(validate_object(true, &value, length - 1, "parameters", Ok(())).is_err());
    assert!(!serialized_exceeds(&value, length));
    assert!(serialized_exceeds(&value, length - 1));
}

#[test]
fn undeclared_objects_must_be_empty_and_declared_ones_conform() {
    assert!(validate_object(false, &json("{}"), 2, "configuration", Ok(())).is_ok());
    assert_eq!(
        words(validate_object(false, &json(r#"{"a":1}"#), 99, "configuration", Ok(()))),
        "configuration is not declared"
    );
    assert_eq!(words(validate_object(true, &json(r#"{"a":1}"#), 3, "parameters", Ok(()))), "parameters exceeds 3 bytes");
    assert!(validate_sized(3, true, &json("{}"), 3, "parameters", Ok(())).is_ok());
    assert_eq!(words(validate_sized(4, true, &json("{}"), 3, "parameters", Ok(()))), "parameters exceeds 3 bytes");
    assert!(matches!(
        validate_object(true, &json("{}"), 2, "parameters", Err(vec![finding()])),
        Err(Error::Validation(_))
    ));
    assert!(matches!(
        accept_parameters(Some(&json(SCHEMA)), &json("{}"), Err(vec![finding()]), &Table::new()),
        Err(Error::Validation(_))
    ));
}

#[test]
fn parsing_moves_owned_parameter_and_configuration_payloads() {
    let mut given = arguments(
        r#"{"action":"pull","parameters":{"id":"one","number":"parameter allocation"},"configuration":{"id":"two","number":"configuration allocation"}}"#,
    );
    let parameter = given[1].1.get_text("number").unwrap().as_ptr();
    let configuration = given[2].1.get_text("number").unwrap().as_ptr();
    let schema = json(r#"{"type":"object","properties":{"id":{"type":"string"},"number":{"type":"string"}}}"#);
    let taken = take_object(&mut given, "parameters");
    let parameters = bind_parameters(Some(&schema), taken, &Table::new()).ok().unwrap();
    let held = take_object(&mut given, "configuration");
    assert_eq!(parameters.get_text("number").unwrap().as_ptr(), parameter);
    assert_eq!(held.get_text("number").unwrap().as_ptr(), configuration);
    assert_eq!(given.iter().map(|(name, _)| name.as_str()).collect::<Vec<_>>(), ["action"]);
    assert!(take_object(&mut given, "parameters").is_empty_object());
}

#[test]
fn supplied_sources_fill_the_parameters_that_name_them() {
    let schema = json(r#"{"properties":{"receipt":{"type":"string","format":"source"}}}"#);
    let ids = table(vec![("receipt", "src_1".to_owned())]);
    let bound = bind_parameters(Some(&schema), json("{}"), &ids).ok().unwrap();
    assert_eq!(bound.get_text("receipt"), Some("src_1"));
    let named = bind_parameters(Some(&schema), json(r#"{"receipt":"other"}"#), &ids).ok().unwrap();
    assert_eq!(named.get_text("receipt"), Some("src_1"));
    let list = json(r#"{"properties":{"all":{"items":{"format":"source"}}}}"#);
    let listed = bind_parameters(Some(&list), json(r#"{"all":["receipt","src_1",null]}"#), &ids).ok().unwrap();
    assert!(matches!(
        listed.get("all"),
        Some(Json::Array(items)) if items[0].as_text() == Some("src_1") && items[1].as_text() == Some("src_1")
    ));
    assert_eq!(
        words(bind_parameters(Some(&list), json(r#"{"all":["other"]}"#), &ids)),
        "source reference was not explicitly supplied"
    );
    assert_eq!(words(bind_parameters(Some(&schema), json("[]"), &ids)), "parameters must be an object");
}

#[test]
fn source_references_are_checked_wherever_they_stand() {
    let sources = table(vec![("src_1", pdf())]);
    let schema = json(r#"{"items":{"format":"source","maxBytes":8},"additionalProperties":{"format":"source"}}"#);
    assert!(check_sources(&schema, &json(r#"["src_1",null]"#), &sources).is_ok());
    assert_eq!(check_sources(&schema, &json("[1]"), &sources), Err(SourceFault::Missing));
    assert_eq!(check_sources(&schema, &json(r#"["src_2"]"#), &sources), Err(SourceFault::Missing));
    assert!(check_sources(&schema, &json(r#"{"a":"src_2"}"#), &sources).is_ok());
    let strict = json(r#"{"format":"source","maxBytes":7}"#);
    assert_eq!(check_sources(&strict, &json(r#""src_1""#), &sources), Err(SourceFault::Refused));
    let ids = table(vec![("receipt", "src_1".to_owned())]);
    assert!(matches!(
        rewrite_sources(&schema, json(r#"["receipt"]"#), &ids),
        Ok(Json::Array(items)) if items.len() == 1 && items[0].as_text() == Some("src_1")
    ));
    assert!(matches!(rewrite_sources(&schema, json(r#"["other"]"#), &ids), Err(SourceFault::NotSupplied)));
    assert!(matches!(rewrite_sources(&schema, json("[1]"), &ids), Err(SourceFault::NotText)));
}

#[test]
fn tokens_come_from_one_variable_per_connection() {
    assert_eq!(token_variable("ledger-v2"), "SLOPER_TOKEN_LEDGER_V2");
    assert_eq!(admit_token("V", Variable::Absent).ok().unwrap(), None);
    assert_eq!(admit_token("V", Variable::Present("t".to_owned())).ok().unwrap().as_deref(), Some("t"));
    assert!(admit_token("V", Variable::Present("t".repeat(16_384))).is_ok());
    for refused in [String::new(), "t".repeat(16_385)] {
        assert_eq!(
            words(admit_token("V", Variable::Present(refused))),
            "V must contain between 1 and 16384 bytes"
        );
    }
    assert_eq!(words(admit_token("V", Variable::NotUnicode)), "V must be UTF-8");
}

#[test]
fn bounded_input_rejects_oversized_objects() {
    assert!(check_bounded("component", 5, 5).is_ok());
    let error = check_bounded("component", 5, 4).err().unwrap();
    assert_eq!(error.message(), "component exceeds its 4-byte limit");
    assert_eq!(error.exit_code(), 3);
}

#[test]
fn files_become_sources_with_their_media_type() {
    let source = supply_source("a/b.pdf", b"%PDF".to_vec(), Some("b.pdf".to_owned()), Ok(()), Some("application/pdf".to_owned()))
        .ok()
        .unwrap();
    assert_eq!((source.filename.as_str(), source.media_type.as_str()), ("b.pdf", "application/pdf"));
    let unknown = supply_source("a", Vec::new(), Some("a".to_owned()), Ok(()), None).ok().unwrap();
    assert_eq!(unknown.media_type, "application/octet-stream");
    assert_eq!(words(supply_source("a", Vec::new(), None, Ok(()), None)), "source filename must be UTF-8");
    assert!(matches!(
        supply_source("a", Vec::new(), Some("../a".to_owned()), Err("bad name".to_owned()), None),
        Err(Error::SourceFilename(_))
    ));
}

#[test]
fn actions_and_readers_are_found_by_name() {
    let manifest = Manifest {
        name: "sloper.example".to_owned(),
        version: "1.0.0".to_owned(),
        actions: table(vec![(
            "pull",
            Action { mode: Mode::Foreground, connections: Vec::new(), resources: Table::new(), parameters: None },
        )]),
        resources: Table::new(),
        connections: Table::new(),
        configuration: None,
    };
    assert!(select_action(&arguments(r#"{"action":"pull"}"#), &manifest).is_ok());
    assert_eq!(words(select_action(&arguments(r#"{"action":"push"}"#), &manifest)), "unknown extension action");
    assert_eq!(words(select_action(&arguments("{}"), &manifest)), "action is required");
    assert_eq!(text(&arguments(r#"{"out":"dir"}"#), "out").ok().unwrap(), "dir");
    assert_eq!(words(text(&arguments(r#"{"out":1}"#), "out")), "out is required");
    let readers: Table<Vec<Json>> = table(vec![("invoices", Vec::new())]);
    assert!(require_reader(&readers, "invoices").is_ok());
    assert_eq!(
        words(require_reader(&readers, "other")),
        "other is not a reader declared by this action"
    );
}

fn invoices() -> Manifest {
    Manifest {
        name: "sloper.example".to_owned(),
        version: "1.0.0".to_owned(),
        actions: table(vec![(
            "inspect",
            Action {
                mode: Mode::Foreground,
                connections: vec!["ledger".to_owned(), "mail-box".to_owned()],
                resources: table(vec![
                    ("invoices", vec![Capability::Read]),
                    ("results", vec![Capability::Write]),
                ]),
                parameters: None,
            },
        )]),
        resources: table(vec![
            ("invoices", Resource { key: Some("id".to_owned()), schema: json(SCHEMA) }),
            ("results", Resource { key: Some("id".to_owned()), schema: json(SCHEMA) }),
        ]),
        connections: table(vec![
            ("ledger", Connection { scopes: Vec::new() }),
            ("mail-box", Connection { scopes: Vec::new() }),
        ]),
        configuration: None,
    }
}

fn supply(path: &String) -> Result<LocalSource, Error> {
    match path.as_str() {
        "invoice.pdf" => Ok(pdf()),
        _ => Err(Error::Io(true)),
    }
}

fn conforms(_: &Json, value: &Json) -> Result<(), Vec<Finding>> {
    if value.get_text("id").is_some() && value.get_text("number").is_some() {
        Ok(())
    } else {
        Err(vec![finding()])
    }
}

fn read(path: &String) -> Fixture {
    let texts: &[&str] = match path.as_str() {
        "one.jsonl" => &["{\"id\":\"one\",\"number\":\"A\",\"document\":\"receipt\"}\n"],
        "two.jsonl" => &["{\"id\":\"one\",\"number\":\"A\"}\n", "{\"id\":\"two\"}\n"],
        "duplicate.jsonl" => &["not strict\n"],
        _ => &[],
    };
    Fixture {
        lines: texts
            .iter()
            .map(|text| FixtureLine {
                bytes: text.as_bytes().to_vec(),
                parsed: serde_json::from_str::<Value>(text).ok().as_ref().map(from_value),
            })
            .collect(),
        fault: if texts.is_empty() { Some(Error::Io(true)) } else { None },
    }
}

fn variable(name: &String) -> Variable {
    match name.as_str() {
        "SLOPER_TOKEN_LEDGER" => Variable::Present("bearer".to_owned()),
        _ => Variable::Absent,
    }
}

fn prepare(text: &str) -> Result<(Inputs, Table<LocalSource>), Error> {
    let mut given = arguments(text);
    let manifest = invoices();
    Inputs::parse(&mut given, &manifest, &supply, &conforms, &read, &variable)
        .map(|(inputs, supplied)| (inputs, supplied.sources))
}

#[test]
fn inputs_gather_sources_fixtures_and_tokens() {
    let (inputs, sources) =
        prepare(r#"{"action":"inspect","source":["receipt=invoice.pdf"],"resource":["invoices=one.jsonl"]}"#)
            .ok()
            .unwrap();
    let id = inputs.readers.get("invoices").unwrap()[0].get_text("document").unwrap();
    assert!(sources.contains(id), "source={id}");
    assert!(id.starts_with("src_") && id.len() == 36);
    assert_ne!(new_source_id(), new_source_id());
    assert!(inputs.parameters.is_empty_object());
    assert_eq!(inputs.tokens.entries, [("ledger".to_owned(), "bearer".to_owned())]);
    let (plain, _) = prepare(r#"{"action":"inspect"}"#).ok().unwrap();
    assert_eq!(plain.readers.get("invoices").unwrap().len(), 0);
}

#[test]
fn inputs_report_the_first_failure() {
    for (text, message) in [
        ("{}", "action is required"),
        (r#"{"action":"other","source":1}"#, "unknown extension action"),
        (r#"{"action":"inspect","source":["a"],"parameters":1}"#, "source must be NAME=PATH"),
        (
            r#"{"action":"inspect","source":["a=missing"],"parameters":1}"#,
            "the command could not complete its file operation",
        ),
        (r#"{"action":"inspect","parameters":{"a":1},"configuration":{"a":1}}"#, "parameters is not declared"),
        (r#"{"action":"inspect","configuration":{"a":1},"resource":1}"#, "configuration is not declared"),
        (r#"{"action":"inspect","resource":["results=one.jsonl"]}"#, "results is not a reader declared by this action"),
        (r#"{"action":"inspect","resource":["invoices=two.jsonl"]}"#, "input failed validation"),
        (
            r#"{"action":"inspect","resource":["invoices=duplicate.jsonl"]}"#,
            "duplicate.jsonl:1: expected a JSON object without duplicate keys",
        ),
        (
            r#"{"action":"inspect","resource":["invoices=one.jsonl"]}"#,
            "source reference was not explicitly supplied",
        ),
        (
            r#"{"action":"inspect","resource":["invoices=missing.jsonl"]}"#,
            "the command could not complete its file operation",
        ),
    ] {
        assert_eq!(words(prepare(text)), message, "{text}");
    }
    let mut given = arguments(r#"{"action":"inspect"}"#);
    let refused = Inputs::parse(&mut given, &invoices(), &supply, &conforms, &read, &|_: &String| Variable::NotUnicode);
    assert_eq!(words(refused), "SLOPER_TOKEN_LEDGER must be UTF-8");
}

#[test]
fn sources_are_filed_under_the_ids_that_were_drawn() {
    let mut files = Table::new();
    files.insert("b".to_owned(), "two.pdf".to_owned());
    files.insert("a".to_owned(), "one.pdf".to_owned());
    let read = |path: &String| Ok(LocalSource {
        filename: path.clone(),
        media_type: "application/pdf".to_owned(),
        bytes: path.clone().into_bytes(),
    });
    let drawn = vec!["src_1".to_owned(), "src_2".to_owned()];
    let supplied = supply_under(&files, &drawn, &read).ok().unwrap();
    assert_eq!(supplied.ids.get("a").unwrap(), "src_1");
    assert_eq!(supplied.ids.get("b").unwrap(), "src_2");
    assert_eq!(supplied.sources.get("src_1").unwrap().filename, "one.pdf");
    assert_eq!(supplied.sources.get("src_2").unwrap().bytes, b"two.pdf");
    let same = vec!["src_1".to_owned(), "src_1".to_owned()];
    let supplied = supply_under(&files, &same, &read).ok().unwrap();
    assert_eq!(supplied.sources.entries.len(), 1);
    assert_eq!(supplied.sources.get("src_1").unwrap().filename, "two.pdf");
    let refused = supply_under(&files, &drawn, &|_: &String| Err(Error::Png));
    assert!(matches!(refused, Err(Error::Png)));
    let supplied = supply_sources(&files, &read).ok().unwrap();
    assert_ne!(supplied.ids.get("a").unwrap(), supplied.ids.get("b").unwrap());
    assert_eq!(supplied.sources.entries.len(), 2);
}
