//! The state of a local run: what it reads, writes, seals, logs and reports.

use serde_json::Value;
use sloper_extension::completion::{
    bounded_keys, export_filename, input_snapshot, written_item_keys, MAX_SUMMARY_BYTES,
};
use sloper_extension::host::HostError;
use sloper_extension::identity::{digest, hex};
use sloper_extension::inputs::LocalSource;
use sloper_extension::json::{Json, Number};
use sloper_extension::logs::{
    LogKind, LogLevel, LOG_DROPPED_MESSAGE, LOG_ENTRY_BYTES, MAX_LOG_BYTES, MAX_LOG_LINE_BYTES,
};
use sloper_extension::manifest::{Action, Capability, Connection, Manifest, Mode, Resource};
use sloper_extension::receipt::operation_document;
use sloper_extension::runner::check_output;
use sloper_extension::sealing::new_source_id;
use sloper_extension::store::{Inputs, Item, ItemFault, Phase, Setup, Store, Writer};
use sloper_extension::table::Table;
use sloper_extension::text::truncate;
use sha2::{Digest, Sha256};

const TIME: &str = "2026-09-08T10:00:00Z";
const LATER: &str = "2026-09-08T10:00:01Z";
const SCHEMA: &str = r#"{"type":"object","properties":{"id":{"type":"string"},"number":{"type":"string"},"document":{"type":["string","null"],"format":"source"}},"required":["id","number"]}"#;

fn from_value(value: &Value) -> Json {
    match value {
        Value::Null => Json::Null,
        Value::Bool(flag) => Json::Bool(*flag),
        Value::Number(number) => Json::Number(match (number.as_u64(), number.as_i64()) {
            (Some(unsigned), _) => Number::Unsigned(unsigned),
            (None, Some(negative)) => Number::Negative(negative),
            _ => Number::Decimal(number.to_string()),
        }),
        Value::String(text) => Json::Text(text.clone()),
        Value::Array(items) => Json::Array(items.iter().map(from_value).collect()),
        Value::Object(members) => {
            Json::Object(members.iter().map(|(name, value)| (name.clone(), from_value(value))).collect())
        },
    }
}

fn to_value(json: &Json) -> Value {
    match json {
        Json::Null => Value::Null,
        Json::Bool(flag) => Value::from(*flag),
        Json::Number(Number::Unsigned(number)) => Value::from(*number),
        Json::Number(Number::Negative(number)) => Value::from(*number),
        Json::Number(Number::Decimal(text)) => serde_json::from_str(text).unwrap(),
        Json::Text(text) => Value::from(text.as_str()),
        Json::Array(items) => Value::Array(items.iter().map(to_value).collect()),
        Json::Object(members) => {
            Value::Object(members.iter().map(|(name, value)| (name.clone(), to_value(value))).collect())
        },
    }
}

fn json(text: &str) -> Json {
    from_value(&serde_json::from_str(text).unwrap())
}

fn value(text: &str) -> Value {
    serde_json::from_str(text).unwrap()
}

fn table<T>(entries: Vec<(&str, T)>) -> Table<T> {
    let mut table = Table::new();
    for (name, entry) in entries {
        assert!(table.insert(name.to_owned(), entry).is_none());
    }
    table
}

fn manifest(capabilities: Vec<Capability>) -> Manifest {
    Manifest {
        name: "sloper.example".to_owned(),
        version: "1.2.3".to_owned(),
        actions: table(vec![(
            "inspect",
            Action {
                mode: Mode::Background,
                connections: vec!["ledger".to_owned()],
                resources: table(vec![("invoices", capabilities)]),
                parameters: None,
            },
        )]),
        resources: table(vec![(
            "invoices",
            Resource { key: Some("id".to_owned()), schema: json(SCHEMA) },
        )]),
        connections: table(vec![("ledger", Connection { scopes: vec!["read".to_owned()] })]),
        configuration: None,
    }
}

fn setup(capabilities: Vec<Capability>, items: Vec<Json>, tokens: Table<String>, parameters: Json) -> Setup {
    let readers = if capabilities.contains(&Capability::Read) {
        table(vec![("invoices", items)])
    } else {
        Table::new()
    };
    Setup {
        manifest: manifest(capabilities),
        inputs: Inputs {
            action: "inspect".to_owned(),
            parameters,
            configuration: json("{}"),
            readers,
            tokens,
        },
        operation_id: "operation".to_owned(),
        workspace: "ws_1".to_owned(),
        input_commit: "sha256:input".to_owned(),
    }
}

fn begin(setup: Setup, sources: Table<LocalSource>) -> Store {
    let mut store = Store::new(setup, sources);
    store.enqueue(TIME);
    store.start(1, TIME).ok().unwrap();
    store
}

fn host(items: Vec<Json>) -> Store {
    begin(
        setup(vec![Capability::Read, Capability::Write], items, Table::new(), json("{}")),
        Table::new(),
    )
}

fn host_with_token(token: &str) -> Store {
    host_with_tokens(vec![("ledger", token)])
}

fn host_with_tokens(tokens: Vec<(&str, &str)>) -> Store {
    let tokens = table(tokens.into_iter().map(|(name, token)| (name, token.to_owned())).collect());
    begin(
        setup(vec![Capability::Read, Capability::Write], Vec::new(), tokens, json("{}")),
        Table::new(),
    )
}

fn conforms(item: &Json) -> bool {
    item.get_text("id").is_some() && item.get_text("number").is_some()
}

fn write(store: &mut Store, items: &[&str]) -> Result<(), HostError> {
    let mut incoming = store.begin_write("invoices")?;
    for text in items {
        let item = store.receive_item(&incoming, text, Some(json(text)))?;
        let verdict = conforms(&item);
        store.keep_item("invoices", &mut incoming, text, item, verdict)?;
    }
    store.commit_write("invoices", None, incoming)
}

fn complete(store: &mut Store, failure: Option<Json>) -> Result<Option<Vec<u8>>, HostError> {
    match store.begin_completion(failure, LATER)? {
        Some(failure) => {
            store.finish_completion(Err(failure));
            Ok(None)
        },
        None => {
            let bytes = to_value(&store.result_snapshot()).to_string().into_bytes();
            store.finish_completion(Ok(digest(&bytes)));
            Ok(Some(bytes))
        },
    }
}

fn source(store: &mut Store, property: &str, property_valid: bool) -> Result<String, HostError> {
    let plan = store.plan_source("invoices", property, true, property_valid)?;
    let accepted = store.accept_source(
        "invoices",
        property,
        plan,
        "report.pdf",
        b"%PDF-1.7".to_vec(),
        Some("application/pdf".to_owned()),
    )?;
    let id = new_source_id();
    store.seal_source(&id, accepted, "invoices", property);
    Ok(id)
}

fn page(store: &mut Store) -> Option<Vec<Item>> {
    store.read("invoices").unwrap().0
}

fn retry(store: &mut Store) {
    store.retry(TIME, LATER).unwrap();
    store.start(2, LATER).ok().unwrap();
}

fn document(store: &Store) -> Value {
    to_value(&operation_document(&store.setup, store.operation.as_ref().unwrap()))
}

fn working(store: &Store) -> String {
    to_value(&store.working_document()).to_string()
}

fn pdf(bytes: &[u8]) -> LocalSource {
    LocalSource {
        filename: "file.pdf".to_owned(),
        media_type: "application/pdf".to_owned(),
        bytes: bytes.to_vec(),
    }
}

fn charged(store: &Store) -> usize {
    store.logs.iter().map(|line| line.len() + LOG_ENTRY_BYTES).sum::<usize>()
}

#[test]
fn ordinary_notice_text_does_not_end_admission_but_explicit_notice_does() {
    let mut host = host(Vec::new());
    host.log(LogLevel::Warn, LOG_DROPPED_MESSAGE, LogKind::Message);
    host.log(LogLevel::Info, "still admitted", LogKind::Message);
    host.log(LogLevel::Warn, LOG_DROPPED_MESSAGE, LogKind::DroppedNotice);
    host.log(LogLevel::Info, "must be dropped", LogKind::Message);
    host.log(LogLevel::Warn, LOG_DROPPED_MESSAGE, LogKind::DroppedNotice);

    assert_eq!(
        host.logs,
        [
            format!("Level::Warn: {LOG_DROPPED_MESSAGE}"),
            "Level::Info: still admitted".into(),
            format!("Level::Warn: {LOG_DROPPED_MESSAGE}"),
        ]
    );
    assert!(host.budget.dropped, "stored rows={}", host.logs.len());
    assert_eq!(host.budget.bytes, charged(&host));
}

#[test]
fn full_formatted_line_redacts_credentials_across_the_level_prefix() {
    let mut host = host_with_token("Info: secret");
    host.log(LogLevel::Info, "secret value", LogKind::Message);

    assert_eq!(host.logs, ["Level::[redacted] value"]);
    assert_eq!(host.budget.bytes, "Level::[redacted] value".len() + LOG_ENTRY_BYTES);
}

#[test]
fn full_formatted_lines_are_truncated_on_a_utf8_boundary_and_charged_afterward() {
    let mut host = host(Vec::new());
    host.log(LogLevel::Info, &"é".repeat(MAX_LOG_LINE_BYTES), LogKind::Message);
    host.log(LogLevel::Info, "", LogKind::Message);

    assert_eq!(
        host.logs[0],
        format!("Level::Info: {}", "é".repeat((MAX_LOG_LINE_BYTES - "Level::Info: ".len()) / 2))
    );
    assert_eq!(host.logs[0].len(), MAX_LOG_LINE_BYTES - 1);
    assert_eq!(host.logs[1], "Level::Info: ");
    assert_eq!(
        host.budget.bytes,
        MAX_LOG_LINE_BYTES - 1 + "Level::Info: ".len() + 2 * LOG_ENTRY_BYTES
    );
}

#[test]
fn fully_redacted_empty_rows_exhaust_the_metadata_budget() {
    let mut host = host_with_token("a");
    let ordinary_rows = (MAX_LOG_BYTES - MAX_LOG_LINE_BYTES - LOG_ENTRY_BYTES) / LOG_ENTRY_BYTES;
    for _ in 0..ordinary_rows + 2 {
        host.log(LogLevel::Info, "a", LogKind::Message);
    }
    host.log(LogLevel::Info, "", LogKind::Message);
    host.log(LogLevel::Warn, "a", LogKind::DroppedNotice);

    assert_eq!(host.logs, vec![String::new(); ordinary_rows + 1]);
    assert_eq!(host.budget.bytes, (ordinary_rows + 1) * LOG_ENTRY_BYTES);
    assert!(host.budget.dropped, "stored rows={}", host.logs.len());
}

#[test]
fn repeated_marker_tokens_are_omitted_before_replacement_expansion() {
    let names: Vec<String> = (0..64).map(|index| format!("connection-{index}")).collect();
    let mut host = host_with_tokens(names.iter().map(|name| (name.as_str(), "e")).collect());
    host.log(LogLevel::Info, "e", LogKind::Message);
    host.log(LogLevel::Warn, LOG_DROPPED_MESSAGE, LogKind::DroppedNotice);

    assert_eq!(host.logs, ["", ""]);
    assert_eq!(host.budget.bytes, 2 * LOG_ENTRY_BYTES);
}

#[test]
fn credentials_reconstructed_across_replacement_boundaries_are_omitted() {
    let mut host = host_with_tokens(vec![("ledger", "s[redacted]"), ("replacement", "X")]);
    host.log(LogLevel::Info, "sX", LogKind::Message);

    assert_eq!(host.logs, [""]);
    assert_eq!(host.budget.bytes, LOG_ENTRY_BYTES);
}

#[test]
fn full_notice_reservation_accounts_for_the_final_utf8_and_metadata() {
    let mut host = host(Vec::new());
    let row_charge = MAX_LOG_LINE_BYTES + LOG_ENTRY_BYTES;
    let ordinary_budget = MAX_LOG_BYTES - row_charge;
    let full_rows = ordinary_budget / row_charge;
    for _ in 0..full_rows {
        host.log(LogLevel::Info, &"x".repeat(MAX_LOG_LINE_BYTES), LogKind::Message);
    }
    let remaining_charge = ordinary_budget % row_charge;
    host.log(
        LogLevel::Info,
        &"x".repeat(remaining_charge - LOG_ENTRY_BYTES - "Level::Info: ".len()),
        LogKind::Message,
    );
    assert_eq!(host.budget.bytes, ordinary_budget);
    assert!(!host.budget.dropped, "charged bytes={}", host.budget.bytes);

    host.log(LogLevel::Warn, &"n".repeat(MAX_LOG_LINE_BYTES), LogKind::DroppedNotice);
    host.log(LogLevel::Info, "", LogKind::Message);
    assert_eq!(host.logs.len(), full_rows + 2);
    assert_eq!(
        host.logs.last().unwrap(),
        &format!("Level::Warn: {}", "n".repeat(MAX_LOG_LINE_BYTES - "Level::Warn: ".len()))
    );
    assert_eq!(host.budget.bytes, MAX_LOG_BYTES);
    assert_eq!(host.budget.bytes, charged(&host));
}

#[test]
fn local_overflow_redacts_the_notice_and_permanently_drops_smaller_rows() {
    let mut host = host_with_token("attempt logs");
    let full_rows = (MAX_LOG_BYTES - MAX_LOG_LINE_BYTES - LOG_ENTRY_BYTES) / (MAX_LOG_LINE_BYTES + LOG_ENTRY_BYTES);
    for _ in 0..=full_rows {
        host.log(LogLevel::Info, &"x".repeat(MAX_LOG_LINE_BYTES), LogKind::Message);
    }
    host.log(LogLevel::Info, "", LogKind::Message);
    host.log(LogLevel::Warn, LOG_DROPPED_MESSAGE, LogKind::DroppedNotice);

    assert_eq!(host.logs.len(), full_rows + 1);
    assert_eq!(
        host.logs.last().unwrap(),
        "Level::Warn: Further [redacted] were dropped after the 1 MiB limit."
    );
    assert!(host.budget.dropped, "stored rows={}", host.logs.len());
    assert!(host.budget.bytes <= MAX_LOG_BYTES, "charged bytes={}", host.budget.bytes);
    assert_eq!(host.budget.bytes, charged(&host));
}

#[test]
fn host_notice_redacts_its_text_and_prefix_before_ending_admission() {
    let mut host = host_with_token("rn: Further attempt logs");
    host.log(LogLevel::Warn, LOG_DROPPED_MESSAGE, LogKind::DroppedNotice);
    host.log(LogLevel::Info, "must be dropped", LogKind::Message);

    assert_eq!(host.logs, ["Level::Wa[redacted] were dropped after the 1 MiB limit."]);
    assert_eq!(host.budget.bytes, host.logs[0].len() + LOG_ENTRY_BYTES);
    assert!(host.budget.dropped, "stored rows={}", host.logs.len());
}

#[test]
fn failure_property_names_and_nested_values_are_redacted_before_persistence() {
    let mut host = host_with_token("secret-key");
    complete(
        &mut host,
        Some(json(
            r#"{"code":"EXTENSION_FAILED","message":"stopped","secret-key":{"nested":[{"secret-key":"secret-key"}]}}"#,
        )),
    )
    .unwrap();

    let persisted = working(&host);
    assert!(!persisted.contains("secret-key"), "persisted state={persisted}");
    let state: Value = serde_json::from_str(&persisted).unwrap();
    assert_eq!(state["operation"]["state"], "FAILED");
    assert_eq!(
        state["operation"]["failure"],
        value(r#"{"code":"EXTENSION_FAILED","message":"stopped","[redacted]":{"nested":[{"[redacted]":"[redacted]"}]}}"#)
    );
}

#[test]
fn nested_property_collisions_clear_the_rejected_value() {
    let host = host_with_token("secret-key");
    let rejected = json(r#"{"details":[{"secret-key":1,"[redacted]":2}],"other":"secret-key"}"#);
    let error = host.setup.redact_value(&rejected).unwrap_err();

    assert!(matches!(error, HostError::Invalid(_)), "error={error:?}");
}

#[test]
fn failure_property_collision_preserves_the_running_operation_and_staging() {
    let mut host = host_with_token("secret-key");
    write(&mut host, &[r#"{"id":"pending","number":"A"}"#]).unwrap();
    let before = working(&host);
    let error = complete(
        &mut host,
        Some(json(
            r#"{"code":"EXTENSION_FAILED","message":"stopped","details":{"secret-key":1,"[redacted]":2}}"#,
        )),
    )
    .unwrap_err();

    assert!(matches!(error, HostError::Invalid(_)), "error={error:?}");
    assert_eq!(working(&host), before);
    let operation = document(&host);
    assert_eq!(operation["state"], "RUNNING");
    assert!(operation.get("endTime").is_none(), "operation={operation}");
    let writer = host.writers.get("invoices").unwrap();
    assert_eq!(writer.staged.len(), 1);
    assert_eq!(writer.staged[0].0, "pending");
}

#[test]
fn writer_property_credentials_cannot_bypass_schema_validation() {
    let mut host = host_with_token("number");
    let error = write(&mut host, &[r#"{"id":"rejected","number":"A"}"#]).unwrap_err();

    assert!(matches!(error, HostError::Invalid(_)), "error={error:?}");
    assert_eq!(host.writers.get("invoices").unwrap().staged.len(), 0);
    let persisted = working(&host);
    assert!(!persisted.contains("number"), "persisted state={persisted}");
}

#[test]
fn writer_property_collision_rejects_the_batch_and_preserves_valid_jsonl() {
    let mut host = host_with_token("secret-key");
    write(&mut host, &[r#"{"id":"kept","number":"A"}"#]).unwrap();
    let error = write(
        &mut host,
        &[
            r#"{"id":"prefix","number":"B"}"#,
            r#"{"id":"collision","number":"C","secret-key":1,"[redacted]":2}"#,
        ],
    )
    .unwrap_err();
    assert!(matches!(error, HostError::Invalid(_)), "error={error:?}");

    host.checkpoint("invoices", "").unwrap();
    complete(&mut host, None).unwrap();
    let files = host.resource_files();
    assert_eq!(files.len(), 1);
    assert_eq!(files[0].path, ["invoices.jsonl"]);
    assert_eq!(files[0].bytes, b"{\"id\":\"kept\",\"number\":\"A\"}\n");
    let persisted = working(&host);
    assert!(!persisted.contains("secret-key"), "persisted state={persisted}");
}

#[test]
fn source_writer_rejects_paths_and_undeclared_or_non_source_properties() {
    let mut host = host(Vec::new());
    for (property, valid) in [
        ("", false),
        ("/properties/document", false),
        ("/properties/nested/properties/document", false),
        ("nested.document", false),
        ("1document", false),
        ("missing", true),
        ("id", true),
        (&"x".repeat(65), false),
    ] {
        assert!(source(&mut host, property, valid).is_err(), "{property}");
    }
    assert!(host.produced.entries.is_empty());
    let id = source(&mut host, "document", true).unwrap();
    write(&mut host, &[&format!(r#"{{"id":"one","number":"N","document":"{id}"}}"#)]).unwrap();
}

#[test]
fn opening_own_output_does_not_lend_it_to_other_properties_or_writers() {
    let mut host = host(Vec::new());
    let id = source(&mut host, "document", true).unwrap();
    let mut reader = host.open_source(&id).unwrap();
    let (bytes, _) = host.observe(&mut reader, 64).unwrap();
    assert_eq!(bytes, b"%PDF-1.7");
    assert!(!host.lent.contains(&id));
    let schema = json(r#"{"type":"string","format":"source"}"#);
    let reference = Json::Text(id);
    assert!(host.validate_item_sources(&schema, &reference, "/properties/document", "invoices").is_ok());
    for (resource, pointer) in [
        ("invoices", "/properties/other"),
        ("other", "/properties/document"),
        ("invoices", "/properties/nested/properties/document"),
        ("invoices", "/properties/documents/items"),
    ] {
        assert_eq!(
            host.validate_item_sources(&schema, &reference, pointer, resource),
            Err(ItemFault::OtherProperty)
        );
    }
}

#[test]
fn already_lent_sources_remain_authorized_in_nested_fields() {
    let mut host = host(Vec::new());
    host.lent.insert("lent".to_owned(), ());
    let schema = json(
        r#"{"type":"object","properties":{"documents":{"type":"array","items":{"type":"string","format":"source"}}}}"#,
    );
    assert!(host.validate_item_sources(&schema, &json(r#"{"documents":["lent"]}"#), "", "invoices").is_ok());
    assert_eq!(
        host.validate_item_sources(&schema, &json(r#"{"documents":["unlent"]}"#), "", "invoices"),
        Err(ItemFault::NotLent)
    );
    let map = json(r#"{"type":"object","additionalProperties":{"type":"string","format":"source"}}"#);
    assert!(host.validate_item_sources(&map, &json(r#"{"any":"lent"}"#), "", "invoices").is_ok());
    assert!(host.validate_item_sources(&map, &json(r#"{"any":"unlent"}"#), "", "invoices").is_err());
    assert_eq!(
        host.validate_item_sources(&map, &json(r#"{"any":1}"#), "", "invoices"),
        Err(ItemFault::NotText)
    );
}

#[test]
fn reader_acknowledges_only_its_successor_and_retries_the_pending_page() {
    let mut host = host((0..1001).map(|id| json(&format!(r#"{{"id":"{id}","number":"N"}}"#))).collect());
    let first = page(&mut host).unwrap();
    assert_eq!(first.len(), 1000);
    assert_eq!(first[0].seed, "local-invoices-1");
    assert_eq!(host.readers.get("invoices").unwrap().acknowledged, 0);
    retry(&mut host);
    let replay = page(&mut host).unwrap();
    assert_eq!(replay[0].seed, first[0].seed);
    assert_eq!(replay[0].value, first[0].value);
    let tail = page(&mut host).unwrap();
    assert_eq!(tail.len(), 1);
    assert_eq!(tail[0].seed, "local-invoices-1001");
    assert_eq!(host.readers.get("invoices").unwrap().acknowledged, 1000);
    assert!(page(&mut host).is_none());
    assert_eq!(host.readers.get("invoices").unwrap().acknowledged, 1001);
}

#[test]
fn source_provenance_counts_actual_partial_reads_and_fences_old_attempts() {
    let mut host = host(Vec::new());
    let id = "src_fixture";
    host.sources.insert(id.to_owned(), pdf(b"%PDF-1.7\nfixture"));
    host.lent.insert(id.to_owned(), ());
    let mut reader = host.open_source(id).unwrap();
    assert!(host.source_reads.entries.is_empty());
    let (prefix, _) = host.observe(&mut reader, 4).unwrap();
    assert_eq!(prefix, b"%PDF");
    let read = &host.source_reads.entries[0].1;
    assert_eq!(read.size, 4);
    assert_eq!(read.sha256, digest(&prefix).trim_start_matches("sha256:"));
    retry(&mut host);
    assert!(host.observe(&mut reader, 4).is_none());
    complete(&mut host, None).unwrap();
    assert_eq!(document(&host)["sourceCount"], "1");
    let state: Value = serde_json::from_str(&working(&host)).unwrap();
    let persisted = state["source_reads"].as_object().unwrap().values().next().unwrap();
    assert_eq!(persisted["sizeBytes"], "4");
    assert_eq!(persisted["sourceId"], id);
}

#[test]
fn invalid_write_preserves_prior_staging_and_failure_exports_only_checkpoints() {
    let mut host = host(Vec::new());
    write(&mut host, &[r#"{"id":"kept","number":"A"}"#]).unwrap();
    assert!(write(&mut host, &[r#"{"id":"valid-prefix","number":"B"}"#, r#"{"id":"invalid"}"#]).is_err());
    host.checkpoint("invoices", "").unwrap();
    write(&mut host, &[r#"{"id":"uncheckpointed","number":"C"}"#]).unwrap();
    complete(&mut host, Some(json(r#"{"code":"EXTENSION_FAILED","message":"stopped"}"#))).unwrap();
    let operation = document(&host);
    assert_eq!(operation["state"], "FAILED");
    assert!(operation.get("resultCommitId").is_none());
    let files = host.resource_files();
    assert_eq!(host.writers.get("invoices").unwrap().items.entries.len(), 1);
    assert_eq!(files[0].bytes, b"{\"id\":\"kept\",\"number\":\"A\"}\n");
    assert_eq!(operation["resources"][0]["written"], "1");
    assert_eq!(operation["resources"][0]["extensionResourceId"], "invoices");
}

#[test]
fn success_has_one_result_commit_and_sealed_sources_survive_failure() {
    let mut host = host(Vec::new());
    let id = source(&mut host, "document", true).unwrap();
    write(&mut host, &[&format!(r#"{{"id":"one","number":"A","document":"{id}"}}"#)]).unwrap();
    host.checkpoint("invoices", "").unwrap();
    complete(&mut host, None).unwrap();
    let operation = document(&host);
    assert_eq!(operation["state"], "SUCCEEDED");
    assert!(operation["resultCommitId"].as_str().unwrap().starts_with("sha256:"));
    assert_ne!(operation["inputCommitId"], operation["resultCommitId"]);
    let files = host.source_files(false);
    assert_eq!(files.len(), 1);
    assert_eq!(files[0].path, ["sources", id.as_str(), "report.pdf"]);
    assert_eq!(files[0].bytes, b"%PDF-1.7");
    assert!(matches!(host.checkpoint("invoices", ""), Err(HostError::Stopped)));
    let result = host.exported("out", vec!["out/invoices.jsonl".to_owned()], vec!["out/report.pdf".to_owned()]);
    assert_eq!(to_value(&result.operation), operation);
    assert_eq!(result.out, "out");
    assert_eq!(result.resources[0].extension_resource_id, "invoices");
    assert_eq!(result.resources[0].items, "1");
    assert_eq!(result.resources[0].path, "out/invoices.jsonl");
    assert_eq!(result.sources[0].source_id, id);
    assert_eq!(result.sources[0].path, "out/report.pdf");
}

#[test]
fn attempts_are_asked_for_with_the_pinned_inputs() {
    let mut host = begin(
        setup(vec![Capability::Write], Vec::new(), Table::new(), json(r#"{"file":"fixture"}"#)),
        table(vec![("fixture", pdf(b"%PDF-1.7"))]),
    );
    host.checkpoint("invoices", "next").unwrap();
    let request = host.request();
    assert_eq!((request.operation.as_str(), request.action.as_str()), ("operation", "inspect"));
    assert_eq!((request.parameters.as_str(), request.configuration.as_str()), (r#"{"file":"fixture"}"#, "{}"));
    assert_eq!(request.sources.len(), 1);
    assert_eq!((request.sources[0].id.as_str(), request.sources[0].size), ("fixture", 8));
    assert_eq!((request.cursors[0].name.as_str(), request.cursors[0].value.as_str()), ("invoices", "next"));
    assert!(check_output(false).is_ok());
    assert_eq!(check_output(true).err().unwrap().message(), "local run output directory already exists");
}

#[test]
fn checkpoint_failure_restores_repeated_keys_staging_and_cursor() {
    let mut host = host(Vec::new());
    write(&mut host, &[r#"{"id":"same","number":"original"}"#]).unwrap();
    host.checkpoint("invoices", "").unwrap();
    let batch = [
        r#"{"id":"same","number":"first"}"#,
        r#"{"id":"new","number":"second"}"#,
        r#"{"id":"same","number":"last"}"#,
    ];
    write(&mut host, &batch).unwrap();
    let original_bytes = host.writers.get("invoices").unwrap().staged_bytes;
    let undo = host.checkpoint("invoices", "").unwrap();
    host.undo_checkpoint(undo);
    let writer = host.writers.get("invoices").unwrap();
    assert_eq!(writer.written, 1);
    assert_eq!(writer.items.entries.len(), 1);
    assert_eq!(writer.items.get("same").unwrap().get_text("number"), Some("original"));
    assert_eq!(
        writer.staged.iter().map(|(_, item)| to_value(item)).collect::<Vec<_>>(),
        batch.iter().map(|item| value(item)).collect::<Vec<_>>()
    );
    assert_eq!(writer.staged_bytes, original_bytes);
    assert_eq!(writer.cursor, "");
    host.checkpoint("invoices", "").unwrap();
    let writer = host.writers.get("invoices").unwrap();
    assert_eq!(writer.written, 4);
    assert_eq!(writer.items.get("same").unwrap().get_text("number"), Some("last"));
    assert_eq!(writer.items.entries.len(), 2);
}

#[test]
fn reader_failure_restores_lending_pending_page_and_drained_state() {
    let mut host = host(vec![json(r#"{"id":"one","number":"A","document":"fixture"}"#)]);
    host.sources.insert("fixture".to_owned(), pdf(b"%PDF-1.7"));
    let (handed, undo) = host.read("invoices").unwrap();
    assert!(handed.is_some());
    assert!(host.lent.contains("fixture"));
    host.undo_read(undo);
    assert!(host.lent.entries.is_empty());
    assert_eq!(host.readers.get("invoices").unwrap().pending, None);
    assert_eq!(host.readers.get("invoices").unwrap().acknowledged, 0);
    assert!(page(&mut host).is_some());
    let (handed, undo) = host.read("invoices").unwrap();
    assert!(handed.is_none());
    assert!(host.readers.get("invoices").unwrap().drained);
    host.undo_read(undo);
    assert!(host.lent.contains("fixture"));
    assert_eq!(host.readers.get("invoices").unwrap().pending, Some(1));
    assert_eq!(host.readers.get("invoices").unwrap().acknowledged, 0);
    assert!(!host.readers.get("invoices").unwrap().drained);
    assert!(page(&mut host).is_none());
}

#[test]
fn source_creation_failure_restores_only_its_metadata() {
    let mut host = host(Vec::new());
    let plan = host.plan_source("invoices", "document", true, true).unwrap();
    let accepted = host
        .accept_source(
            "invoices",
            "document",
            plan,
            "report.pdf",
            b"%PDF-1.7".to_vec(),
            Some("application/pdf".to_owned()),
        )
        .unwrap();
    let undo = host.seal_source("src_1", accepted, "invoices", "document");
    assert!(host.produced.contains("src_1"));
    host.undo_seal(undo);
    assert!(host.sources.entries.is_empty());
    assert!(host.bindings.entries.is_empty());
    assert!(host.produced.entries.is_empty());
    let id = source(&mut host, "document", true).unwrap();
    assert!(host.produced.contains(&id));
}

#[test]
fn source_poll_failure_keeps_bytes_retryable_and_preserves_prior_provenance() {
    let mut host = host(Vec::new());
    let id = source(&mut host, "document", true).unwrap();
    let mut reader = host.open_source(&id).unwrap();
    let (_, undo) = host.observe(&mut reader, 4).unwrap();
    host.undo_observe(&mut reader, undo);
    assert!(host.source_reads.entries.is_empty());
    let (prefix, _) = host.observe(&mut reader, 4).unwrap();
    assert_eq!(prefix, b"%PDF");
    let previous = working(&host);
    let (_, undo) = host.observe(&mut reader, 4).unwrap();
    assert_ne!(working(&host), previous);
    host.undo_observe(&mut reader, undo);
    assert_eq!(working(&host), previous);
    let (rest, _) = host.observe(&mut reader, 4).unwrap();
    assert_eq!(rest, b"-1.7");
    let read = &host.source_reads.entries[0].1;
    assert_eq!(read.size, 8);
    assert_eq!(read.sha256, hex(&Sha256::digest(b"%PDF-1.7")));
}

#[test]
fn canonical_source_owner_is_shared_by_independent_readers() {
    let sources = table(vec![("fixture", pdf(b"%PDF-1.7"))]);
    let mut host = Store::new(
        setup(
            vec![Capability::Read],
            Vec::new(),
            Table::new(),
            json(r#"{"nested":["fixture","fixture"]}"#),
        ),
        sources,
    );
    assert_eq!(host.parameter_sources().len(), 1);
    host.enqueue(TIME);
    host.start(1, TIME).ok().unwrap();
    let mut first = host.open_source("fixture").unwrap();
    let mut second = host.open_source("fixture").unwrap();
    assert_ne!(first.read_id, second.read_id);
    assert_eq!(host.observe(&mut first, 4).unwrap().0, b"%PDF");
    assert_eq!(host.observe(&mut second, 4).unwrap().0, b"%PDF");
    assert_eq!(host.observe(&mut first, 4).unwrap().0, b"-1.7");
    assert!(matches!(host.open_source("other"), Err(HostError::Unauthorized)));
}

#[test]
fn streamed_snapshots_preserve_canonical_bytes_and_commit_digests() {
    let mut host = host(vec![json(r#"{"id":"é","number":"quoted\""}"#)]);
    let initial = to_value(&input_snapshot(&host.setup.inputs, &host.sources)).to_string();
    assert_eq!(
        initial,
        r#"{"resources":{"invoices":[{"id":"é","number":"quoted\""}]},"parameters":{},"configuration":{},"sources":{}}"#
    );
    host.setup.input_commit = digest(initial.as_bytes());
    write(&mut host, &[r#"{"id":"one","number":"A"}"#]).unwrap();
    host.checkpoint("invoices", "").unwrap();
    let expected = format!(
        r#"{{"parent":"{}","operation":"operation","resources":{{"invoices":{{"items":{{"one":{{"id":"one","number":"A"}}}},"written":1,"cursor":""}}}},"sources":{{}}}}"#,
        host.setup.input_commit
    );
    let bytes = complete(&mut host, None).unwrap().unwrap();
    assert_eq!(String::from_utf8(bytes).unwrap(), expected);
    assert_eq!(document(&host)["resultCommitId"], digest(expected.as_bytes()));
    assert_eq!(
        digest(b"abc"),
        "sha256:ba7816bf8f01cfea414140de5dae2223b00361a396177a9cb410ff61f20015ad"
    );
}

#[test]
fn written_key_summary_enforces_item_and_encoded_byte_limits() {
    let mut writer = Writer::new();
    for index in 0..100 {
        writer.items.insert(index.to_string(), Json::Null);
    }
    let writers = table(vec![("invoices", writer)]);
    assert_eq!(written_item_keys(&writers).0.len(), 100);
    let mut writer = Writer::new();
    for index in 0..100 {
        writer.items.insert(index.to_string(), Json::Null);
    }
    writer.items.insert("overflow".to_owned(), Json::Null);
    let writers = table(vec![("invoices", writer)]);
    assert_eq!(written_item_keys(&writers), (Vec::new(), true));
    let overhead = r#"[{"extensionResourceId":"invoices","key":""}]"#.len();
    let mut writer = Writer::new();
    writer.items.insert("x".repeat(MAX_SUMMARY_BYTES - overhead), Json::Null);
    let writers = table(vec![("invoices", writer)]);
    assert!(!written_item_keys(&writers).1);
    let mut writer = Writer::new();
    writer.items.insert("x".repeat(MAX_SUMMARY_BYTES - overhead + 1), Json::Null);
    let writers = table(vec![("invoices", writer)]);
    assert_eq!(written_item_keys(&writers), (Vec::new(), true));
    let keys = || vec![("invoices".to_owned(), "a".to_owned())];
    assert_eq!(bounded_keys(keys(), MAX_SUMMARY_BYTES), (keys(), false));
    assert_eq!(bounded_keys(keys(), MAX_SUMMARY_BYTES + 1), (Vec::new(), true));
}

#[test]
fn truncation_keeps_owned_buffer_and_filename_export_borrows_safe_names() {
    let mut message = "ééé".to_owned();
    let allocation = message.as_ptr();
    truncate(&mut message, 5);
    assert_eq!(message, "éé");
    assert_eq!(message.as_ptr(), allocation);
    let filename = "invoice.pdf".to_owned();
    assert_eq!(export_filename(&filename, false).as_ptr(), filename.as_ptr());
    assert_eq!(export_filename(&filename, true).as_ptr(), filename.as_ptr());
    for filename in ["cOn.txt", "com1.pdf", "Lpt9", "tail.", "tail ", "bad:name"] {
        assert_eq!(export_filename(filename, true), "source");
        assert_eq!(export_filename(filename, false), filename);
    }
    assert_eq!(export_filename("cöm1.pdf", true), "cöm1.pdf");
    assert_eq!(export_filename("cöm1.pdf", false), "cöm1.pdf");
}

#[test]
fn provider_cursors_remain_sorted_across_retries_and_absent_for_readers() {
    let reading = host(Vec::new());
    assert!(reading.cursors().is_empty());
    let mut writing = setup(vec![Capability::Write], Vec::new(), Table::new(), json("{}"));
    let action = &mut writing.manifest.actions.entries[0].1;
    action.resources.insert("alpha".to_owned(), vec![Capability::Write]);
    writing.manifest.resources.insert(
        "alpha".to_owned(),
        Resource { key: Some("id".to_owned()), schema: json(SCHEMA) },
    );
    let mut host = begin(writing, Table::new());
    host.checkpoint("invoices", "checkpoint").unwrap();
    retry(&mut host);
    let cursors = host.cursors();
    assert_eq!(
        cursors.iter().map(|cursor| cursor.name.as_str()).collect::<Vec<_>>(),
        ["alpha", "invoices"]
    );
    assert_eq!(cursors[1].value, "checkpoint");
}

#[test]
fn readers_refuse_a_cursor_and_long_cursors_are_too_large() {
    let mut host = host(Vec::new());
    assert!(matches!(host.checkpoint("invoices", "cursor"), Err(HostError::Invalid(_))));
    assert!(matches!(host.checkpoint("invoices", &"c".repeat(1025)), Err(HostError::TooLarge)));
    assert!(matches!(host.checkpoint("other", ""), Err(HostError::Unauthorized)));
}

#[test]
fn an_attempt_starts_only_behind_its_predecessor() {
    let mut store = Store::new(
        setup(vec![Capability::Write], Vec::new(), Table::new(), json("{}")),
        Table::new(),
    );
    assert!(store.start(1, TIME).is_err());
    assert!(matches!(store.checkpoint("invoices", ""), Err(HostError::Stopped)));
    store.enqueue(TIME);
    assert!(store.start(2, TIME).is_err());
    store.start(1, TIME).ok().unwrap();
    assert_eq!(store.operation.as_ref().unwrap().phase, Phase::Running);
    assert!(store.start(2, TIME).is_err());
    store.retry(TIME, LATER).unwrap();
    let operation = document(&store);
    assert_eq!(operation["state"], "QUEUED");
    assert_eq!(operation["nextAttemptTime"], LATER);
    store.start(2, LATER).ok().unwrap();
    let operation = document(&store);
    assert_eq!(operation["attempt"], 2);
    assert_eq!(operation["startTime"], TIME);
    assert!(operation.get("nextAttemptTime").is_none());
    assert_eq!(operation["actor"], value(r#"{"kind":"AGENT","origin":"CLI","id":"local-run"}"#));
}

#[test]
fn a_failure_ends_the_operation_and_its_message_is_truncated() {
    let mut host = host(Vec::new());
    let failure = format!(r#"{{"code":"IO_FAILED","message":"{}"}}"#, "m".repeat(MAX_LOG_LINE_BYTES + 1));
    assert!(complete(&mut host, Some(json(&failure))).unwrap().is_none());
    let operation = document(&host);
    assert_eq!(operation["state"], "FAILED");
    assert_eq!(operation["endTime"], LATER);
    assert_eq!(operation["failure"]["code"], "IO_FAILED");
    assert_eq!(operation["failure"]["message"], "m".repeat(MAX_LOG_LINE_BYTES));
    assert!(operation.get("resultCommitId").is_none());
    assert_eq!(
        operation["reads"],
        value(r#"[{"extensionResourceId":"invoices","selected":false,"skipped":"0","absent":"0","total":"0","read":"0"}]"#)
    );
    assert_eq!(operation["settledCount"], "0");
}

#[test]
fn a_token_is_handed_out_to_its_connection_with_its_scopes() {
    let host = host_with_token("bearer");
    let token = host.access_token("ledger", LATER).unwrap();
    assert_eq!(token.value, "bearer");
    assert_eq!(token.expires_at, LATER);
    assert_eq!(token.scopes, ["read"]);
    assert!(!token.debug_text().contains("bearer"));
    assert!(matches!(host.access_token("other", LATER), Err(HostError::Unauthorized)));
}

#[test]
fn the_working_document_leaves_out_what_is_not_committed() {
    let mut host = host(vec![json(r#"{"id":"one","number":"A"}"#)]);
    write(&mut host, &[r#"{"id":"staged","number":"B"}"#]).unwrap();
    page(&mut host).unwrap();
    let state: Value = serde_json::from_str(&working(&host)).unwrap();
    assert_eq!(
        state.as_object().unwrap().keys().map(String::as_str).collect::<Vec<_>>(),
        [
            "admitted", "operation", "readers", "writers", "produced", "source_bindings", "lent", "logs",
            "log_bytes", "source_reads",
        ]
    );
    assert_eq!(state["admitted"], true);
    assert_eq!(state["readers"], value(r#"{"invoices":{"acknowledged":0,"drained":false}}"#));
    assert_eq!(state["writers"], value(r#"{"invoices":{"items":{},"written":0,"cursor":""}}"#));
    let id = source(&mut host, "document", true).unwrap();
    let state: Value = serde_json::from_str(&working(&host)).unwrap();
    assert_eq!(state["produced"][0], id.as_str());
    assert_eq!(state["source_bindings"][&id], value(r#"["invoices","document"]"#));
    let fresh = Store::new(
        setup(vec![Capability::Write], Vec::new(), Table::new(), json("{}")),
        Table::new(),
    );
    let state: Value = serde_json::from_str(&working(&fresh)).unwrap();
    assert_eq!(state["admitted"], false);
    assert_eq!(state["operation"], Value::Null);
}

#[test]
fn stopped_attempts_neither_finish_nor_log() {
    let mut host = host(Vec::new());
    write(&mut host, &[r#"{"id":"kept","number":"A"}"#]).unwrap();
    host.log(LogLevel::Info, "running", LogKind::Message);
    host.retry(TIME, LATER).unwrap();
    let before = working(&host);
    assert!(matches!(host.finish(), Err(HostError::Stopped)));
    assert_eq!(working(&host), before);
    host.log(LogLevel::Info, "stopped", LogKind::Message);
    host.log(LogLevel::Warn, "stopped", LogKind::DroppedNotice);
    assert_eq!(host.logs, ["Level::Info: running"]);
    assert!(!host.budget.dropped);
    host.start(2, LATER).ok().unwrap();
    write(&mut host, &[r#"{"id":"other","number":"B"}"#]).unwrap();
    assert!(!host.writers.get("invoices").unwrap().staged.is_empty());
    host.finish().unwrap();
    assert!(host.writers.get("invoices").unwrap().staged.is_empty());
    complete(&mut host, None).unwrap();
    assert!(matches!(host.finish(), Err(HostError::Stopped)));
}
