//! What an attempt grants its guest, how it settles, and what follows it.

use serde_json::Value;
use sloper_extension::admission::{begin_attempt, begin_pinned};
use sloper_extension::attempt::{
    finish_attempt, redact_failure, AccessToken, Attempt, Batch, GuestOutcome, ReadItem,
};
use sloper_extension::component::ComponentError;
use sloper_extension::host::{ExecutionError, Failure, GuestError, HostError, Retry};
use sloper_extension::json::{Json, Number};
use sloper_extension::limits::{attempt_duration, Deadline, Intake, Limits, MAX_MEMORY_BYTES, MAX_TABLE_ELEMENTS};
use sloper_extension::logs::{LogKind, LogLevel};
use sloper_extension::manifest::{Action, Capability, Connection, Manifest, Mode, Resource};
use sloper_extension::redact::{order_tokens, redact_value};
use sloper_extension::request::{validate_request, validate_source_metadata, Cursor, Request, RequestFault, Source, Verdicts};
use sloper_extension::runner::{backoff, guest_failure, next_step, Step, RETRY_BUDGET, SECOND};
use sloper_extension::table::Table;

const NOTICE: &str = "Further attempt logs were dropped after the 1 MiB limit.";
const ENTRY_BYTES: usize = 192;
const LIMIT: usize = 1024 * 1024;
const MIB: usize = 1024 * 1024;
const SCHEMA: &str = r#"{"type":"object","properties":{"id":{"type":"string"},"value":{"type":"string"},"document":{"type":["string","null"],"format":"source","maxBytes":16},"attachments":{"type":"array","items":{"type":"object","properties":{"document":{"type":"string","format":"source"}}}}}}"#;

fn from_value(value: &Value) -> Json {
    match value {
        Value::Null => Json::Null,
        Value::Bool(flag) => Json::Bool(*flag),
        Value::Number(number) => Json::Number(match (number.as_u64(), number.as_i64()) {
            (Some(unsigned), _) => Number::Unsigned(unsigned),
            (None, Some(negative)) => Number::Negative(negative),
            _ => Number::Decimal(number.to_string()),
        }),
        Value::String(text) => Json::Text(text.clone()),
        Value::Array(items) => Json::Array(items.iter().map(from_value).collect()),
        Value::Object(members) => {
            Json::Object(members.iter().map(|(name, value)| (name.clone(), from_value(value))).collect())
        },
    }
}

fn json(text: &str) -> Json {
    from_value(&serde_json::from_str(text).unwrap())
}

fn table<T>(entries: Vec<(&str, T)>) -> Table<T> {
    let mut table = Table::new();
    for (name, entry) in entries {
        assert!(table.insert(name.to_owned(), entry).is_none());
    }
    table
}

fn action(connections: &[&str], resources: Vec<(&str, Vec<Capability>)>) -> Action {
    Action {
        mode: Mode::Foreground,
        connections: connections.iter().map(|name| name.to_string()).collect(),
        resources: table(resources),
        parameters: None,
    }
}

fn manifest() -> Manifest {
    let resource = || Resource { key: Some("id".to_owned()), schema: json(SCHEMA) };
    Manifest {
        name: "sloper.host-test".to_owned(),
        version: "0.0.1".to_owned(),
        actions: table(vec![
            ("denied", action(&[], Vec::new())),
            ("reader", action(&[], vec![("items", vec![Capability::Read])])),
            ("writer", action(&["ledger"], vec![("items", vec![Capability::Write])])),
        ]),
        resources: table(vec![("items", resource())]),
        connections: table(vec![("ledger", Connection { scopes: Vec::new() })]),
        configuration: None,
    }
}

fn request(action: &str) -> Request {
    Request {
        operation: "operation".to_owned(),
        action: action.to_owned(),
        parameters: "{}".to_owned(),
        configuration: "{}".to_owned(),
        sources: Vec::new(),
        cursors: if action == "writer" {
            vec![Cursor { name: "items".to_owned(), value: String::new() }]
        } else {
            Vec::new()
        },
    }
}

fn attempt(action: &str) -> Attempt {
    Attempt::new(&manifest(), Some(&request(action)))
}

fn issued(attempt: &mut Attempt, value: &str) {
    attempt
        .issue_token(AccessToken {
            value: value.to_owned(),
            expires_at: "2026-09-08T10:00:00Z".to_owned(),
            scopes: Vec::new(),
        })
        .unwrap();
}

fn item(size: usize) -> String {
    let empty = r#"{"id":"a","value":""}"#.len();
    format!(r#"{{"id":"a","value":"{}"}}"#, "v".repeat(size - empty))
}

fn write(attempt: &mut Attempt, texts: &[String]) -> Result<Vec<String>, GuestError> {
    let mut batch = Batch::new();
    for text in texts {
        let value = attempt.receive_item(&mut batch, text, Some(json(text)))?;
        attempt.stage_item(&mut batch, "items", &value, true)?;
    }
    Ok(batch.staged)
}

fn failed(attempt: &Attempt) -> ExecutionError {
    attempt
        .settle(None, GuestOutcome::Returned(Err(Failure::Internal("ignored".to_owned()))), false)
        .unwrap_err()
}

#[test]
fn item_and_batch_byte_limits_are_exact_before_and_after_redaction() {
    let mut over_batch = vec![MIB; 7];
    over_batch.extend([MIB - 23, 24]);
    for (sizes, accepted) in [
        (vec![MIB], true),
        (vec![MIB + 1], false),
        (vec![MIB; 8], true),
        (over_batch, false),
    ] {
        let mut attempt = attempt("writer");
        let texts: Vec<String> = sizes.iter().map(|size| item(*size)).collect();
        let result = write(&mut attempt, &texts);
        if accepted {
            let items = result.expect("exact item and batch byte ceilings accept");
            assert_eq!(items.len(), sizes.len());
            assert!(items.iter().map(String::len).sum::<usize>() <= 8 * MIB);
        } else {
            assert!(matches!(result, Err(GuestError::TooLarge)), "result={result:?}");
            assert!(matches!(failed(&attempt), ExecutionError::LimitExceeded));
        }
    }
    let mut attempt = attempt("writer");
    issued(&mut attempt, "x");
    let growing = format!(r#"{{"id":"x","value":"{}"}}"#, "v".repeat(MIB - 8 - r#"{"id":"x","value":""}"#.len()));
    let result = write(&mut attempt, &[growing]);
    assert!(matches!(result, Err(GuestError::TooLarge)), "result={result:?}");
    let fitting = format!(r#"{{"id":"x","value":"{}"}}"#, "v".repeat(MIB - 9 - r#"{"id":"x","value":""}"#.len()));
    let items = write(&mut attempt, &vec![fitting; 8]).unwrap();
    assert!(items.iter().all(|item| item.len() == MIB && item.starts_with(r#"{"id":"[redacted]""#)));
}

#[test]
fn projected_pages_enforce_exact_item_and_page_byte_limits() {
    let mut over_page = vec![MIB; 7];
    over_page.extend([MIB - 23, 24]);
    for (sizes, accepted) in [
        (vec![MIB], true),
        (vec![MIB + 1], false),
        (vec![MIB; 8], true),
        (over_page, false),
    ] {
        let mut attempt = attempt("reader");
        let page: Vec<ReadItem> = sizes
            .iter()
            .map(|size| {
                let text = item(*size);
                let value = Some(json(&text));
                ReadItem { text, value, conforms: true }
            })
            .collect();
        let result = attempt.admit_page("items", &page);
        if accepted {
            result.expect("exact page and item limits accept");
        } else {
            assert!(matches!(result, Err(HostError::TooLarge)), "result={result:?}");
            assert!(matches!(failed(&attempt), ExecutionError::LimitExceeded));
        }
    }
}

#[test]
fn guest_memory_allocation_cannot_exceed_host_ceiling() {
    let mut limits = Limits::new();
    assert!(limits.memory_growing(0, MAX_MEMORY_BYTES, None));
    assert!(!limits.exceeded);
    assert!(!limits.memory_growing(0, 1, None));
    assert!(limits.exceeded);
    let mut limits = Limits::new();
    assert!(limits.table_growing(0, MAX_TABLE_ELEMENTS, None));
    assert!(!limits.table_growing(0, 1, None));
    let mut limits = Limits::new();
    assert!(!limits.memory_growing(0, 11, Some(10)));
    assert!(limits.exceeded);
    let result = attempt("reader").settle(None, GuestOutcome::Trapped("out of memory".to_owned()), true);
    assert!(matches!(result, Err(ExecutionError::LimitExceeded)), "result={result:?}");
}

#[test]
fn issued_token_is_redacted_from_guest_logs() {
    let mut attempt = attempt("writer");
    assert!(attempt.request_token("ledger").is_ok());
    issued(&mut attempt, "sensitive-test-token");
    let line = attempt.log(LogLevel::Info, "got sensitive-test-token").unwrap();
    assert_eq!(line.text, "got [redacted]");
    assert_eq!(line.kind, LogKind::Message);
}

#[test]
fn empty_guest_logs_pay_metadata_and_emit_one_reserved_notice() {
    let mut attempt = attempt("reader");
    let logs: Vec<String> =
        (0..20_000).filter_map(|_| attempt.log(LogLevel::Info, "")).map(|line| line.text).collect();
    let accepted = (LIMIT - 4096 - ENTRY_BYTES) / ENTRY_BYTES;
    assert_eq!(logs.len(), accepted + 1);
    assert!(logs[..accepted].iter().all(String::is_empty));
    assert_eq!(logs.last().map(String::as_str), Some(NOTICE));
    assert!(logs.iter().map(|line| line.len() + ENTRY_BYTES).sum::<usize>() <= LIMIT);
}

#[test]
fn guest_log_redaction_and_unicode_truncation_are_charged_before_admission() {
    let mut attempt = attempt("writer");
    issued(&mut attempt, "x");
    let message = "x🦀".repeat(1024);
    let mut logs: Vec<String> =
        (0..400).filter_map(|_| attempt.log(LogLevel::Info, &message)).map(|line| line.text).collect();
    logs.extend(attempt.log(LogLevel::Info, "must-not-appear-after-drop").map(|line| line.text));
    assert!(logs.iter().all(|line| line.len() <= 4096));
    assert!(logs.iter().all(|line| !line.contains('x')));
    assert!(logs.iter().map(|line| line.len() + ENTRY_BYTES).sum::<usize>() <= LIMIT);
    assert_eq!(logs.iter().filter(|line| line.as_str() == NOTICE).count(), 1);
    assert_eq!(logs.last().map(String::as_str), Some(NOTICE));
    assert!(!logs.iter().any(|line| line == "must-not-appear-after-drop"));
}

#[test]
fn guest_notice_text_cannot_forge_internal_budget_control() {
    let mut attempt = attempt("reader");
    let mut lines: Vec<_> = (0..100).filter_map(|_| attempt.log(LogLevel::Info, NOTICE)).collect();
    lines.extend(attempt.log(LogLevel::Info, "must-not-appear-after-drop"));
    assert_eq!(lines.len(), 101);
    assert!(lines[..100].iter().all(|line| line.text == NOTICE));
    assert_eq!(lines[100].text, "must-not-appear-after-drop");
    assert!(lines.iter().all(|line| line.kind == LogKind::Message));
}

#[test]
fn actual_guest_flood_redacts_short_exact_notice_and_marker_tokens() {
    for token in ["s", NOTICE, "a", "[redacted]"] {
        let mut attempt = attempt("writer");
        issued(&mut attempt, token);
        let mut lines: Vec<_> = (0..20_000).filter_map(|_| attempt.log(LogLevel::Info, "")).collect();
        lines.extend(attempt.log(LogLevel::Info, "must-not-appear-after-drop"));
        assert!(lines.iter().all(|line| !line.text.contains(token)));
        assert!(lines.iter().all(|line| line.text.len() <= 4096));
        assert!(lines.iter().map(|line| line.text.len() + ENTRY_BYTES).sum::<usize>() <= LIMIT);
        assert_eq!(lines.iter().filter(|line| line.kind == LogKind::DroppedNotice).count(), 1);
        assert_eq!(lines.last().map(|line| line.kind), Some(LogKind::DroppedNotice));
        assert!(!lines.iter().any(|line| line.text == "must-not-appear-after-drop"));
    }
}

#[test]
fn action_grants_deny_other_actions_capabilities_before_callbacks() {
    let mut attempt = attempt("denied");
    assert!(matches!(attempt.request_token("ledger"), Err(GuestError::Invalid(_))));
    assert!(matches!(attempt.open_source("lent"), Err(GuestError::Invalid(_))));
    assert!(matches!(attempt.request_page("items"), Err(GuestError::Invalid(_))));
    assert!(matches!(attempt.open_writer("items", None), Err(GuestError::Invalid(_))));
    assert!(attempt.settle(None, GuestOutcome::Returned(Ok(())), false).unwrap().is_ok());
}

#[test]
fn duplicate_resource_writers_stay_denied_after_drop() {
    let mut attempt = attempt("writer");
    assert!(matches!(attempt.open_writer("items", None), Err(GuestError::Invalid(_))));
    assert!(attempt.open_writer("items", Some("ledger")).is_ok());
    let reopened = attempt.open_writer("items", Some("ledger"));
    assert!(matches!(reopened, Err(GuestError::Invalid("resource writer is already open"))));
}

#[test]
fn successful_production_and_projected_read_items_lend_source_bytes() {
    let mut producing = attempt("writer");
    assert_eq!(producing.begin_source("items", "document", true, true).unwrap(), 16);
    let id = producing.finish_source(Ok("src_1".to_owned()), false, false).unwrap();
    assert!(producing.open_source(&id).is_ok());
    assert!(write(&mut producing, &[r#"{"id":"a","document":"src_1"}"#.to_owned()]).is_ok());
    let foreign = write(&mut producing, &[r#"{"id":"a","document":"src_2"}"#.to_owned()]);
    assert!(matches!(foreign, Err(GuestError::Invalid("item source was not lent to this attempt"))));
    let mut reading = attempt("reader");
    let text = r#"{"id":"a","attachments":[{"document":"projected"}]}"#;
    let page = vec![ReadItem { text: text.to_owned(), value: Some(json(text)), conforms: true }];
    reading.admit_page("items", &page).unwrap();
    assert!(reading.open_source("projected").is_ok());
    assert!(reading.open_source("other").is_err());
}

#[test]
fn source_production_rejects_schema_paths_and_undeclared_properties_before_sealing() {
    for (property, valid) in [
        ("/properties/document", false),
        ("/properties/attachments/items/properties/document", false),
        ("missing", true),
        ("id", true),
    ] {
        let mut attempt = attempt("writer");
        let refused = attempt.begin_source("items", property, valid, true);
        assert!(matches!(refused, Err(GuestError::Invalid(_))), "property={property}");
        let result = attempt.settle(None, GuestOutcome::Returned(Ok(())), false);
        assert!(matches!(result, Err(ExecutionError::SourceFailed)), "property={property}, result={result:?}");
    }
}

#[test]
fn ignored_failed_source_production_prevents_success() {
    let mut attempt = attempt("writer");
    attempt.begin_source("items", "document", true, true).unwrap();
    let sealed = attempt.finish_source(Err(HostError::Unavailable), false, false);
    assert!(matches!(sealed, Err(HostError::Unavailable)));
    let result = attempt.settle(None, GuestOutcome::Returned(Ok(())), false);
    assert!(matches!(result, Err(ExecutionError::SourceFailed)), "result={result:?}");
}

#[test]
fn unfinished_sources_prevent_success() {
    let mut attempt = attempt("writer");
    attempt.begin_source("items", "document", true, true).unwrap();
    let result = attempt.settle(None, GuestOutcome::Returned(Ok(())), false);
    assert!(matches!(result, Err(ExecutionError::SourceFailed)), "result={result:?}");
    attempt.abandon_source();
    let result = attempt.settle(None, GuestOutcome::Returned(Ok(())), false);
    assert!(matches!(result, Err(ExecutionError::SourceFailed)), "result={result:?}");
}

#[test]
fn source_read_transport_errors_cannot_become_successful_eof() {
    let mut attempt = attempt("reader");
    attempt.source_not_read("injected source transport failure");
    attempt.source_not_read("another");
    let result = attempt.settle(None, GuestOutcome::Returned(Ok(())), false);
    assert!(
        matches!(&result, Err(ExecutionError::SourceRead(cause)) if cause == "injected source transport failure"),
        "result={result:?}"
    );
}

#[test]
fn ignored_source_size_failure_never_seals_truncated_bytes() {
    let mut attempt = attempt("writer");
    let bound = attempt.begin_source("items", "document", true, true).unwrap();
    let mut intake = Intake::new(bound);
    assert!(intake.offer(16));
    intake.take(16);
    assert!(!intake.offer(1));
    let sealed = attempt.finish_source(Ok("src_1".to_owned()), intake.exceeded, intake.failed);
    assert!(matches!(sealed, Err(HostError::TooLarge)));
    assert!(attempt.open_source("src_1").is_err());
    let result = attempt.settle(None, GuestOutcome::Returned(Ok(())), false);
    assert!(matches!(result, Err(ExecutionError::LimitExceeded)), "result={result:?}");
}

#[test]
fn produced_source_storage_failure_retains_its_native_cause() {
    for failed in [false, true] {
        let mut attempt = attempt("writer");
        attempt.begin_source("items", "document", true, true).unwrap();
        let cause = "injected produced-source storage failure";
        assert!(attempt.finish_source(Err(HostError::SourceWrite(cause.to_owned())), false, failed).is_err());
        let result = attempt.settle(None, GuestOutcome::Returned(Ok(())), false);
        let Err(ExecutionError::Host(HostError::SourceWrite(kept))) = result else {
            panic!("result={result:?}")
        };
        assert_eq!(kept, cause);
    }
}

#[test]
fn native_deadline_interrupts_computation_without_interrupting_another_attempt() {
    let spinning = Deadline { attempt: 100, stopping: None, native: Some(10) };
    let survivor = Deadline { attempt: 100, stopping: None, native: None };
    assert!(spinning.expired(9).is_none());
    assert!(matches!(spinning.expired(10), Some(ExecutionError::Deadline)));
    assert!(survivor.expired(10).is_none());
    assert_eq!(spinning.next_wake(), 10);
    assert_eq!(survivor.next_wake(), 100);
}

#[test]
fn cancellation_deadline_update_interrupts_a_guest_making_no_calls() {
    let deadline = Deadline { attempt: 100, stopping: Some(5), native: Some(90) };
    assert!(matches!(deadline.expired(5), Some(ExecutionError::Stopped)));
    assert_eq!(deadline.next_wake(), 5);
    let result = attempt("reader").settle(deadline.expired(5), GuestOutcome::Returned(Ok(())), false);
    assert!(matches!(result, Err(ExecutionError::Stopped)), "result={result:?}");
}

#[test]
fn settlement_success_cannot_override_a_simultaneously_expired_deadline() {
    let deadline = Deadline { attempt: 100, stopping: None, native: Some(10) };
    let result = finish_attempt(Ok(()), deadline.expired(10));
    assert!(matches!(result, Err(ExecutionError::Deadline)), "result={result:?}");
    assert!(finish_attempt(Ok(()), deadline.expired(9)).is_ok());
    let result = finish_attempt(Err(HostError::Unavailable), None);
    assert!(matches!(result, Err(ExecutionError::Host(HostError::Unavailable))));
}

#[test]
fn sdk_unavailable_failure_preserves_message_and_retry_instant() {
    let failure = Failure::Unavailable(Retry {
        message: "provider token is busy".to_owned(),
        not_before: Some((1_788_220_800, 5)),
    });
    let clean = redact_failure(failure, &vec!["token".to_owned()]);
    let Failure::Unavailable(retry) = clean else {
        panic!("the failure keeps its kind")
    };
    assert_eq!(retry.message, "provider [redacted] is busy");
    assert_eq!(retry.not_before, Some((1_788_220_800, 5)));
}

#[test]
fn guests_that_fail_after_a_refused_item_end_with_it() {
    let mut attempt = attempt("writer");
    let mut batch = Batch::new();
    assert!(attempt.receive_item(&mut batch, "{", None).is_err());
    assert!(matches!(failed(&attempt), ExecutionError::ItemInvalid));
    assert!(attempt.settle(None, GuestOutcome::Returned(Ok(())), false).unwrap().is_ok());
    let trapped = attempt.settle(None, GuestOutcome::Trapped("unreachable".to_owned()), false);
    assert!(matches!(trapped, Err(ExecutionError::Trapped(_))));
    let broken = attempt.settle(None, GuestOutcome::Failed("engine".to_owned()), false);
    assert!(matches!(broken, Err(ExecutionError::Runtime(_))));
}

#[test]
fn guest_failures_are_redacted_where_they_settle() {
    let mut attempt = attempt("writer");
    issued(&mut attempt, "secret");
    let outcome = GuestOutcome::Returned(Err(Failure::Rejected("secret refused".to_owned())));
    let Ok(Err(Failure::Rejected(message))) = attempt.settle(None, outcome, false) else {
        panic!("the failure keeps its kind")
    };
    assert_eq!(message, "[redacted] refused");
}

#[test]
fn cursors_are_bounded_and_left_out_for_readers() {
    let mut writing = attempt("writer");
    assert_eq!(writing.checkpoint_cursor("cursor").unwrap(), "cursor");
    assert!(matches!(writing.checkpoint_cursor(&"c".repeat(1025)), Err(GuestError::TooLarge)));
    let mut reading = attempt("reader");
    assert_eq!(reading.checkpoint_cursor("cursor").unwrap(), "");
}

#[test]
fn tokens_must_be_usable() {
    let mut attempt = attempt("writer");
    for value in [String::new(), "t".repeat(16 * 1024 + 1)] {
        let refused = attempt.issue_token(AccessToken {
            value,
            expires_at: "2026-09-08T10:00:00Z".to_owned(),
            scopes: Vec::new(),
        });
        assert!(refused.is_err());
    }
    issued(&mut attempt, &"t".repeat(16 * 1024));
    assert_eq!(attempt.tokens.len(), 1);
}

#[test]
fn longer_tokens_are_replaced_first() {
    let tokens = vec!["ab".to_owned(), "abc".to_owned()];
    assert_eq!(order_tokens(&tokens), ["abc", "ab"]);
    let clean = redact_value(&json(r#"{"ab":["abc"]}"#), &order_tokens(&tokens)).unwrap();
    assert!(matches!(clean.get("[redacted]"), Some(Json::Array(items)) if items[0].as_text() == Some("[redacted]")));
    assert!(redact_value(&json(r#"{"ab":1,"abc":2}"#), &order_tokens(&tokens)).is_none());
}

fn verdicts() -> Verdicts {
    Verdicts {
        parameters: Some(json("{}")),
        configuration: Some(json("{}")),
        parameters_conform: true,
        configuration_conforms: true,
        filenames: Vec::new(),
    }
}

#[test]
fn pinned_requests_agree_with_the_manifest() {
    let manifest = manifest();
    assert_eq!(validate_request(&manifest, &request("reader"), &verdicts()), Ok(()));
    assert_eq!(validate_request(&manifest, &request("other"), &verdicts()), Err(RequestFault::Action));
    let large = Request { configuration: "c".repeat(256 * 1024 + 1), ..request("reader") };
    assert_eq!(validate_request(&manifest, &large, &verdicts()), Err(RequestFault::TooLarge));
    let unnamed = Request { operation: String::new(), ..request("reader") };
    assert_eq!(validate_request(&manifest, &unnamed, &verdicts()), Err(RequestFault::Operation));
    let unread = Verdicts { parameters: None, ..verdicts() };
    assert_eq!(validate_request(&manifest, &request("reader"), &unread), Err(RequestFault::Parameters));
    let unread = Verdicts { configuration: None, ..verdicts() };
    assert_eq!(validate_request(&manifest, &request("reader"), &unread), Err(RequestFault::Configuration));
    let undeclared = Verdicts { parameters: Some(json(r#"{"a":1}"#)), ..verdicts() };
    assert!(validate_request(&manifest, &request("reader"), &undeclared).is_err());
    let positioned = Request {
        cursors: vec![Cursor { name: "items".to_owned(), value: "c".to_owned() }],
        ..request("reader")
    };
    assert_eq!(validate_request(&manifest, &positioned, &verdicts()), Err(RequestFault::ReaderState));
    let unlisted = Request {
        sources: vec![Source {
            id: "lent".to_owned(),
            filename: "lent.txt".to_owned(),
            media_type: "text/plain".to_owned(),
            size: 5,
        }],
        ..request("reader")
    };
    let named = Verdicts { filenames: vec![true], ..verdicts() };
    assert_eq!(validate_request(&manifest, &unlisted, &named), Err(RequestFault::SourceSet));
    let misnamed = Verdicts { filenames: vec![false], ..verdicts() };
    assert_eq!(validate_request(&manifest, &unlisted, &misnamed), Err(RequestFault::SourceMetadata));
}

#[test]
fn sources_of_a_request_satisfy_the_schema_that_names_them() {
    let mut manifest = manifest();
    let place = manifest.actions.locate("writer").unwrap();
    manifest.actions.entries[place].1.parameters =
        Some(json(r#"{"properties":{"document":{"format":"source","maxBytes":5,"mediaTypes":["text/plain"]}}}"#));
    let lent = |media_type: &str, size: u64| Request {
        parameters: r#"{"document":"lent"}"#.to_owned(),
        sources: vec![Source {
            id: "lent".to_owned(),
            filename: "lent.txt".to_owned(),
            media_type: media_type.to_owned(),
            size,
        }],
        ..request("writer")
    };
    let named = || Verdicts {
        parameters: Some(json(r#"{"document":"lent"}"#)),
        filenames: vec![true],
        ..verdicts()
    };
    assert_eq!(validate_request(&manifest, &lent("text/plain", 5), &named()), Ok(()));
    assert_eq!(validate_request(&manifest, &lent("text/plain", 6), &named()), Err(RequestFault::SourceTooLarge));
    assert_eq!(validate_request(&manifest, &lent("image/png", 5), &named()), Err(RequestFault::SourceMediaType));
    let absent = Request { sources: Vec::new(), ..lent("text/plain", 5) };
    let unnamed = Verdicts { filenames: Vec::new(), ..named() };
    assert_eq!(validate_request(&manifest, &absent, &unnamed), Err(RequestFault::SourceSet));
    let schema = json(r#"{"format":"source"}"#);
    assert_eq!(
        validate_source_metadata(&schema, &json(r#""lent""#), &Vec::new()),
        Err(RequestFault::SourceMissing)
    );
}

#[test]
fn attempts_are_repeated_within_their_budget() {
    assert_eq!(backoff(1), 5 * SECOND);
    assert_eq!(backoff(5), 80 * SECOND);
    let unavailable: Result<Result<(), Failure>, ExecutionError> =
        Err(ExecutionError::Host(HostError::Unavailable));
    assert!(matches!(next_step(&unavailable, false, 2, 0, 0), Step::Retry(delay) if delay == 10 * SECOND));
    assert!(matches!(next_step(&unavailable, false, 5, 0, 0), Step::Complete(Some(_))));
    let late = next_step(&unavailable, false, 1, 0, RETRY_BUDGET - 5 * SECOND);
    let Step::Complete(Some(failure)) = late else {
        panic!("the budget is used up")
    };
    assert_eq!(failure.get_text("code"), Some("INTERRUPTED"));
    let timed: Result<Result<(), Failure>, ExecutionError> = Err(ExecutionError::Deadline);
    assert!(matches!(next_step(&timed, true, 1, 0, 0), Step::Retry(_)));
    let Step::Complete(Some(failure)) = next_step(&timed, false, 1, 0, 0) else {
        panic!("a foreground attempt is not repeated")
    };
    assert_eq!(failure.get_text("code"), Some("TIMED_OUT"));
    let retry = |not_before| Ok(Err(Failure::Unavailable(Retry { message: "busy".to_owned(), not_before })));
    assert!(matches!(
        next_step(&retry(Some((10, 5))), false, 1, 9_000_000_000, 0),
        Step::Retry(delay) if delay == SECOND + 5
    ));
    assert!(matches!(next_step(&retry(Some((10, 5))), false, 1, 11_000_000_000, 0), Step::Retry(0)));
    assert!(matches!(next_step(&retry(None), false, 1, 0, 0), Step::Retry(delay) if delay == 5 * SECOND));
    assert!(matches!(next_step(&Ok(Ok(())), false, 1, 0, 0), Step::Complete(None)));
    let connection = guest_failure(&Failure::NotConnected("sign in".to_owned()));
    assert_eq!(connection.get_text("code"), Some("CONNECTION_REQUIRED"));
    assert_eq!(connection.get_text("extensionCode"), Some("NOT_CONNECTED"));
    assert_eq!(connection.get_text("message"), Some("sign in"));
}

#[test]
fn background_attempts_run_longer() {
    assert_eq!(attempt_duration(Mode::Foreground), 300 * SECOND);
    assert_eq!(attempt_duration(Mode::Background), 6 * 3600 * SECOND);
}

#[test]
fn guests_learn_of_no_cause() {
    let cause = || "disk path".to_owned();
    for (error, shown) in [
        (HostError::SourceRead(cause()), "source could not be read"),
        (HostError::SourceUnreadable, "source could not be read"),
        (HostError::SourceWrite(cause()), "source could not be written"),
        (HostError::Unavailable, "extension host is unavailable"),
    ] {
        assert!(matches!(error.to_guest(), GuestError::Unavailable(words) if words == shown));
    }
    assert!(matches!(HostError::Stopped.to_guest(), GuestError::Cancelled));
    assert!(matches!(HostError::TooLarge.to_guest(), GuestError::TooLarge));
    assert!(matches!(HostError::Invalid("a").to_guest(), GuestError::Invalid("a")));
    assert!(matches!(HostError::Unauthorized.to_guest(), GuestError::Unauthorized));
}

#[test]
fn sources_that_cannot_be_opened_fail_the_attempt() {
    let mut attempt = attempt("reader");
    attempt.source_not_opened(&HostError::Unavailable);
    let result = attempt.settle(None, GuestOutcome::Returned(Ok(())), false);
    assert!(matches!(result, Err(ExecutionError::SourceUnreadable)), "result={result:?}");
    attempt.source_not_opened(&HostError::SourceRead("gone".to_owned()));
    let result = attempt.settle(None, GuestOutcome::Returned(Ok(())), false);
    assert!(matches!(result, Err(ExecutionError::SourceRead(cause)) if cause == "gone"));
}

#[test]
fn staged_texts_keep_within_a_batch() {
    let mut attempt = attempt("writer");
    let mut batch = Batch::new();
    assert!(attempt.stage_text(&mut batch, "t".repeat(MIB)).is_ok());
    assert_eq!(batch.staged_bytes, MIB);
    assert!(matches!(attempt.stage_text(&mut batch, "t".repeat(MIB + 1)), Err(GuestError::TooLarge)));
    assert_eq!(batch.staged.len(), 1);
    assert!(matches!(failed(&attempt), ExecutionError::LimitExceeded));
}

#[test]
fn attempts_begin_with_the_manifest_that_the_component_carries() {
    let pinned = json(r#"{"name":"sloper.host-test","version":"0.0.1","limits":[1,-2,0.5]}"#);
    let reordered = json(r#"{"limits":[1,-2,0.5],"version":"0.0.1","name":"sloper.host-test"}"#);
    for embedded in [pinned.copy(), reordered] {
        let began = begin_attempt(Ok(embedded), &pinned, &manifest(), &request("reader"), &verdicts());
        assert_eq!(began.unwrap(), 300 * SECOND);
    }
    let other = json(r#"{"name":"sloper.host-test","version":"0.0.2","limits":[1,-2,0.5]}"#);
    let began = begin_attempt(Ok(other), &pinned, &manifest(), &request("reader"), &verdicts());
    assert!(matches!(began, Err(ExecutionError::Invalid("pinned manifest does not match component"))));
    let began = begin_attempt(Ok(pinned.copy()), &pinned, &manifest(), &request("other"), &verdicts());
    assert!(matches!(began, Err(ExecutionError::Invalid("action is not declared"))));
    let invalid = Err(ComponentError::Manifest(Vec::new()));
    let began = begin_attempt(invalid, &pinned, &manifest(), &request("reader"), &verdicts());
    assert!(matches!(began, Err(ExecutionError::Component(_))));
    let mut background = manifest();
    background.actions.entries[1].1.mode = Mode::Background;
    assert_eq!(begin_pinned(true, &background, &request("reader"), &verdicts()).unwrap(), 6 * 3600 * SECOND);
    assert!(begin_pinned(false, &background, &request("reader"), &verdicts()).is_err());
}

#[test]
fn consistent_manifests_use_what_they_declare() {
    assert!(manifest().is_consistent());
    let mut undeclared = manifest();
    undeclared.resources = Table::new();
    assert!(!undeclared.is_consistent());
    let mut unordered = manifest();
    unordered.actions.entries.reverse();
    assert!(!unordered.actions.is_ordered());
    assert!(!unordered.is_consistent());
}
