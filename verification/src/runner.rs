//! Deciding between the attempts of a local run.

use vstd::prelude::*;
use vstd::string::*;

use crate::host::{ExecutionError, Failure, FailureView, HostError, Retry};
use crate::json::{json_text, lemma_object, lookup, member, members_of, write_json, Json, JsonValue};
use crate::request::Request;
use crate::store::Store;
use crate::tool::Error;

verus! {

/// The most attempts of an operation.
pub const MAX_ATTEMPTS: u32 = 5;

/// How long an operation may take with all its attempts, in nanoseconds: a day.
pub const RETRY_BUDGET: u64 = 24 * 60 * 60 * 1_000_000_000;

/// One second, in nanoseconds.
pub const SECOND: u64 = 1_000_000_000;

/// How long to wait after an attempt, in seconds: five, and twice as long each time.
pub open spec fn backoff_seconds(attempt: nat) -> nat
    decreases attempt,
{
    if attempt <= 1 {
        5
    } else {
        2 * backoff_seconds((attempt - 1) as nat)
    }
}

/// Returns how long to wait after an attempt, in nanoseconds.
pub fn backoff(attempt: u32) -> (delay: u64)
    requires
        1 <= attempt <= MAX_ATTEMPTS,
    ensures
        delay == backoff_seconds(attempt as nat) * SECOND,
{
    proof {
        reveal_with_fuel(backoff_seconds, 6);
    }
    let mut seconds: u64 = 5;
    let mut passed: u32 = 1;
    while passed < attempt
        invariant
            1 <= passed <= attempt <= MAX_ATTEMPTS,
            seconds == backoff_seconds(passed as nat),
            backoff_seconds(1) == 5,
            backoff_seconds(2) == 10,
            backoff_seconds(3) == 20,
            backoff_seconds(4) == 40,
            backoff_seconds(5) == 80,
        decreases attempt - passed,
    {
        seconds = seconds * 2;
        passed += 1;
    }
    seconds * SECOND
}

/// How long it is until an instant, in nanoseconds; nothing where it has passed or
/// lies farther away than can be counted.
pub open spec fn wait_until(not_before: (u64, u32), now: i128) -> u64 {
    let left = not_before.0 * SECOND + not_before.1 - now;
    if 0 <= left <= u64::MAX {
        left as u64
    } else {
        0
    }
}

/// How long to wait before the next attempt; `None` where there is to be none.
pub open spec fn delay_after(
    result: Result<Result<(), Failure>, ExecutionError>,
    background: bool,
    attempt: u32,
    now: i128,
) -> Option<int> {
    match result {
        Ok(Err(Failure::Unavailable(retry))) => match retry.not_before {
            Some(instant) => Some(wait_until(instant, now) as int),
            None => Some(backoff_seconds(attempt as nat) * SECOND),
        },
        Err(ExecutionError::Deadline) => if background {
            Some(backoff_seconds(attempt as nat) * SECOND)
        } else {
            None
        },
        Err(ExecutionError::Host(HostError::Unavailable)) => Some(backoff_seconds(attempt as nat) * SECOND),
        _ => None,
    }
}

fn nanoseconds_until(not_before: (u64, u32), now: i128) -> (delay: u64)
    ensures
        delay == wait_until(not_before, now),
{
    let future: i128 = (not_before.0 as i128) * (SECOND as i128) + (not_before.1 as i128);
    if now > future || now < future - (u64::MAX as i128) {
        0
    } else {
        (future - now) as u64
    }
}

fn retry_delay(result: &Result<Result<(), Failure>, ExecutionError>, background: bool, attempt: u32, now: i128) -> (delay: Option<
    u64,
>)
    requires
        1 <= attempt <= MAX_ATTEMPTS,
    ensures
        match delay {
            Some(delay) => delay_after(*result, background, attempt, now) == Some(delay as int),
            None => delay_after(*result, background, attempt, now) is None,
        },
{
    match result {
        Ok(Err(Failure::Unavailable(retry))) => match retry.not_before {
            Some(instant) => Some(nanoseconds_until(instant, now)),
            None => Some(backoff(attempt)),
        },
        Err(ExecutionError::Deadline) => {
            if background {
                Some(backoff(attempt))
            } else {
                None
            }
        },
        Err(ExecutionError::Host(HostError::Unavailable)) => Some(backoff(attempt)),
        _ => None,
    }
}

/// What follows an attempt.
pub enum Step {
    /// Another attempt, after this many nanoseconds.
    Retry(u64),
    /// The end, with this failure or as a success.
    Complete(Option<Json>),
}

/// A failure document.
pub open spec fn failure_value(code: Seq<char>, extension_code: Option<Seq<char>>, message: Seq<char>) -> JsonValue {
    JsonValue::Object(
        seq![("code"@, JsonValue::Text(code))] + (match extension_code {
            Some(extension_code) => seq![("extensionCode"@, JsonValue::Text(extension_code))],
            None => Seq::empty(),
        }) + seq![("message"@, JsonValue::Text(message))],
    )
}

fn failure_json(code: &str, extension_code: Option<&str>, message: &str) -> (json: Json)
    ensures
        json@ == failure_value(
            code@,
            match extension_code {
                Some(extension_code) => Some(extension_code@),
                None => None,
            },
            message@,
        ),
{
    let mut members: Vec<(String, Json)> = Vec::new();
    members.push(("code".to_owned(), Json::Text(code.to_owned())));
    if let Some(extension_code) = extension_code {
        members.push(("extensionCode".to_owned(), Json::Text(extension_code.to_owned())));
    }
    members.push(("message".to_owned(), Json::Text(message.to_owned())));
    proof {
        lemma_object(members);
        assert(members_of(members@) =~= failure_value(
            code@,
            match extension_code {
                Some(extension_code) => Some(extension_code@),
                None => None,
            },
            message@,
        )->Object_0);
    }
    Json::Object(members)
}

/// The code of the guest for its failure, and its message.
pub open spec fn guest_code(failure: FailureView) -> (Seq<char>, Seq<char>) {
    match failure {
        FailureView::InvalidParameters(message) => ("INVALID_PARAMETERS"@, message),
        FailureView::NotConnected(message) => ("NOT_CONNECTED"@, message),
        FailureView::Rejected(message) => ("REJECTED"@, message),
        FailureView::Internal(message) => ("INTERNAL"@, message),
        FailureView::Unavailable(message, _) => ("UNAVAILABLE"@, message),
    }
}

/// The document of a failure that the guest reports.
pub open spec fn guest_value(failure: FailureView) -> JsonValue {
    let (code, message) = guest_code(failure);
    failure_value(
        if failure is NotConnected {
            "CONNECTION_REQUIRED"@
        } else {
            "EXTENSION_FAILED"@
        },
        Some(code),
        message,
    )
}

/// Writes the document of a failure that the guest reports.
pub fn guest_failure(failure: &Failure) -> (json: Json)
    ensures
        json@ == guest_value(failure@),
{
    match failure {
        Failure::InvalidParameters(message) => failure_json(
            "EXTENSION_FAILED",
            Some("INVALID_PARAMETERS"),
            message.as_str(),
        ),
        Failure::NotConnected(message) => failure_json("CONNECTION_REQUIRED", Some("NOT_CONNECTED"), message.as_str()),
        Failure::Rejected(message) => failure_json("EXTENSION_FAILED", Some("REJECTED"), message.as_str()),
        Failure::Internal(message) => failure_json("EXTENSION_FAILED", Some("INTERNAL"), message.as_str()),
        Failure::Unavailable(retry) => failure_json("EXTENSION_FAILED", Some("UNAVAILABLE"), retry.message.as_str()),
    }
}

/// The code of an attempt that did not complete.
pub open spec fn error_code(error: ExecutionError) -> Seq<char> {
    match error {
        ExecutionError::Deadline => "TIMED_OUT"@,
        ExecutionError::Trapped(_) => "EXTENSION_TRAPPED"@,
        ExecutionError::SourceFailed => "SOURCE_UNREADABLE"@,
        ExecutionError::SourceUnreadable => "SOURCE_UNREADABLE"@,
        ExecutionError::SourceRead(_) => "SOURCE_UNREADABLE"@,
        ExecutionError::ItemInvalid => "ITEM_INVALID"@,
        ExecutionError::LimitExceeded => "LIMIT_EXCEEDED"@,
        _ => "HOST_FAILED"@,
    }
}

fn find_error_code(error: &ExecutionError) -> (code: &'static str)
    ensures
        code@ == error_code(*error),
{
    match error {
        ExecutionError::Deadline => "TIMED_OUT",
        ExecutionError::Trapped(_) => "EXTENSION_TRAPPED",
        ExecutionError::SourceFailed => "SOURCE_UNREADABLE",
        ExecutionError::SourceUnreadable => "SOURCE_UNREADABLE",
        ExecutionError::SourceRead(_) => "SOURCE_UNREADABLE",
        ExecutionError::ItemInvalid => "ITEM_INVALID",
        ExecutionError::LimitExceeded => "LIMIT_EXCEEDED",
        _ => "HOST_FAILED",
    }
}

/// The failure that a result is completed with; `None` for a success.
pub open spec fn completion_failure(result: Result<Result<(), Failure>, ExecutionError>) -> Option<JsonValue> {
    match result {
        Ok(Ok(_)) => None,
        Ok(Err(failure)) => Some(guest_value(failure@)),
        Err(error) => Some(failure_value(error_code(error), None, error.message_spec())),
    }
}

/// The failure of an operation whose attempts are used up.
pub open spec fn exhausted_value() -> JsonValue {
    failure_value("INTERRUPTED"@, Some("UNAVAILABLE"@), "The operation retry budget was exhausted."@)
}

/// Decides what follows an attempt that ended with `result`: another attempt where the
/// result asks for one and attempts and time are left, otherwise the end.
pub fn next_step(
    result: &Result<Result<(), Failure>, ExecutionError>,
    background: bool,
    attempt: u32,
    now: i128,
    elapsed: u64,
) -> (step: Step)
    requires
        1 <= attempt <= MAX_ATTEMPTS,
    ensures
        match delay_after(*result, background, attempt, now) {
            Some(delay) => if attempt < MAX_ATTEMPTS && elapsed + delay < RETRY_BUDGET {
                step matches Step::Retry(wait) && wait == delay
            } else {
                step matches Step::Complete(Some(failure)) && failure@ == exhausted_value()
            },
            None => match completion_failure(*result) {
                None => step matches Step::Complete(None),
                Some(expected) => step matches Step::Complete(Some(failure)) && failure@ == expected,
            },
        },
        step matches Step::Complete(None) <==> (*result matches Ok(ended) && ended is Ok),
        step is Retry ==> attempt < MAX_ATTEMPTS,
{
    match retry_delay(result, background, attempt, now) {
        Some(delay) => {
            if attempt < MAX_ATTEMPTS && elapsed < RETRY_BUDGET && delay < RETRY_BUDGET - elapsed {
                Step::Retry(delay)
            } else {
                Step::Complete(
                    Some(
                        failure_json(
                            "INTERRUPTED",
                            Some("UNAVAILABLE"),
                            "The operation retry budget was exhausted.",
                        ),
                    ),
                )
            }
        },
        None => match result {
            Ok(Ok(_)) => Step::Complete(None),
            Ok(Err(failure)) => Step::Complete(Some(guest_failure(failure))),
            Err(error) => Step::Complete(
                Some(failure_json(find_error_code(error), None, error.message().as_str())),
            ),
        },
    }
}

/// Checks that nothing stands where the results of a run are to be written.
pub fn check_output(occupied: bool) -> (checked: Result<(), Error>)
    ensures
        if occupied {
            checked matches Err(Error::Usage(message)) && message@ == "local run output directory already exists"@
        } else {
            checked == Ok::<(), Error>(())
        },
{
    if occupied {
        return Err(Error::Usage("local run output directory already exists".to_owned()));
    }
    Ok(())
}

impl Store {
    /// Returns the request that an attempt of the operation is started with.
    pub fn request(&self) -> (request: Request)
        requires
            self.wf(),
        ensures
            request.operation@ == self.setup.operation_id@,
            request.action@ == self.setup.inputs.action@,
            request.parameters@ == json_text(self.setup.inputs.parameters@),
            request.configuration@ == json_text(self.setup.inputs.configuration@),
            self.lists_sources(request.sources@),
            self.lists_cursors(request.cursors@),
    {
        Request {
            operation: self.setup.operation_id.clone(),
            action: self.setup.inputs.action.clone(),
            parameters: write_json(&self.setup.inputs.parameters),
            configuration: write_json(&self.setup.inputs.configuration),
            sources: self.parameter_sources(),
            cursors: self.cursors(),
        }
    }
}

/// A later attempt waits longer: each time twice as long.
pub proof fn law_backoff_doubles(attempt: nat)
    requires
        attempt >= 1,
    ensures
        backoff_seconds(1) == 5,
        backoff_seconds(attempt + 1) == 2 * backoff_seconds(attempt),
{
}

/// An operation ends without a failure exactly where its last attempt succeeded: a success is
/// not repeated, and nothing else counts as one.
pub proof fn law_only_success_ends_without_a_failure(
    result: Result<Result<(), Failure>, ExecutionError>,
    background: bool,
    attempt: u32,
    now: i128,
)
    ensures
        delay_after(result, background, attempt, now) is None && completion_failure(result) is None <==> (result matches Ok(
            ended,
        ) && ended is Ok),
        completion_failure(result) is None <==> (result matches Ok(ended) && ended is Ok),
{
}

/// An attempt is repeated exactly where the guest says that its provider is unavailable, where
/// the host is, or where an operation in the background ran out of time.
pub proof fn law_only_passing_failures_are_repeated(
    result: Result<Result<(), Failure>, ExecutionError>,
    background: bool,
    attempt: u32,
    now: i128,
)
    ensures
        delay_after(result, background, attempt, now) is Some <==> (result matches Ok(Err(failure)) && failure is Unavailable)
            || (background && result == Err::<Result<(), Failure>, _>(ExecutionError::Deadline)) || result == Err::<
            Result<(), Failure>,
            _,
        >(ExecutionError::Host(HostError::Unavailable)),
{
}

/// A failure that the guest reports ends its operation with a document that holds the guest's
/// message as it is, names the kind of the failure, and asks for a connection where the guest
/// has none.
pub proof fn law_guest_failures_are_told(failure: Failure)
    ensures
        ({
            let document = completion_failure(Ok(Err(failure)))->0;
            &&& completion_failure(Ok(Err(failure))) is Some
            &&& document is Object
            &&& document->Object_0.len() == 3
            &&& member(document, "message"@) == Some(
                JsonValue::Text(
                    match failure {
                        Failure::InvalidParameters(message) => message@,
                        Failure::NotConnected(message) => message@,
                        Failure::Rejected(message) => message@,
                        Failure::Internal(message) => message@,
                        Failure::Unavailable(retry) => retry.message@,
                    },
                ),
            )
            &&& failure is InvalidParameters ==> member(document, "extensionCode"@) == Some(
                JsonValue::Text("INVALID_PARAMETERS"@),
            )
            &&& failure is NotConnected ==> member(document, "extensionCode"@) == Some(JsonValue::Text("NOT_CONNECTED"@))
            &&& failure is Rejected ==> member(document, "extensionCode"@) == Some(JsonValue::Text("REJECTED"@))
            &&& failure is Internal ==> member(document, "extensionCode"@) == Some(JsonValue::Text("INTERNAL"@))
            &&& failure is Unavailable ==> member(document, "extensionCode"@) == Some(JsonValue::Text("UNAVAILABLE"@))
            &&& member(document, "code"@) == Some(
                JsonValue::Text(
                    if failure is NotConnected {
                        "CONNECTION_REQUIRED"@
                    } else {
                        "EXTENSION_FAILED"@
                    },
                ),
            )
        }),
{
    let (code, message) = guest_code(failure@);
    lemma_failure_members(
        if failure@ is NotConnected {
            "CONNECTION_REQUIRED"@
        } else {
            "EXTENSION_FAILED"@
        },
        Some(code),
        message,
    );
}

proof fn lemma_failure_members(code: Seq<char>, extension_code: Option<Seq<char>>, message: Seq<char>)
    ensures
        failure_value(code, extension_code, message)->Object_0.len() == if extension_code is Some {
            3int
        } else {
            2
        },
        member(failure_value(code, extension_code, message), "code"@) == Some(JsonValue::Text(code)),
        member(failure_value(code, extension_code, message), "message"@) == Some(JsonValue::Text(message)),
        member(failure_value(code, extension_code, message), "extensionCode"@) == match extension_code {
            Some(found) => Some(JsonValue::Text(found)),
            None => None,
        },
{
    reveal_strlit("code");
    reveal_strlit("message");
    reveal_strlit("extensionCode");
    assert("code"@.len() == 4 && "message"@.len() == 7 && "extensionCode"@.len() == 13);
    let members = failure_value(code, extension_code, message)->Object_0;
    reveal_with_fuel(lookup, 4);
    assert(members[0] == ("code"@, JsonValue::Text(code)));
    if extension_code is Some {
        assert(members.drop_first()[0] == ("extensionCode"@, JsonValue::Text(extension_code->0)));
        assert(members.drop_first().drop_first()[0] == ("message"@, JsonValue::Text(message)));
    } else {
        assert(members.drop_first()[0] == ("message"@, JsonValue::Text(message)));
    }
}

/// An attempt that did not complete ends its operation with a document that holds the words of
/// the error, and a code of its own where it ran out of time, trapped, or failed on a source,
/// an item or a limit.
pub proof fn law_errors_are_told(error: ExecutionError)
    ensures
        ({
            let document = completion_failure(Err(error))->0;
            &&& completion_failure(Err(error)) is Some
            &&& member(document, "message"@) == Some(JsonValue::Text(error.message_spec()))
            &&& member(document, "extensionCode"@) is None
            &&& member(document, "code"@) == Some(
                JsonValue::Text(
                    if error is Deadline {
                        "TIMED_OUT"@
                    } else if error is Trapped {
                        "EXTENSION_TRAPPED"@
                    } else if error is SourceFailed || error is SourceUnreadable || error is SourceRead {
                        "SOURCE_UNREADABLE"@
                    } else if error is ItemInvalid {
                        "ITEM_INVALID"@
                    } else if error is LimitExceeded {
                        "LIMIT_EXCEEDED"@
                    } else {
                        "HOST_FAILED"@
                    },
                ),
            )
        }),
{
    lemma_failure_members(error_code(error), None, error.message_spec());
}

/// An operation whose attempts or time are used up is interrupted.
pub proof fn law_exhausted_operations_are_interrupted()
    ensures
        member(exhausted_value(), "code"@) == Some(JsonValue::Text("INTERRUPTED"@)),
        member(exhausted_value(), "extensionCode"@) == Some(JsonValue::Text("UNAVAILABLE"@)),
        member(exhausted_value(), "message"@) == Some(JsonValue::Text("The operation retry budget was exhausted."@)),
{
    lemma_failure_members("INTERRUPTED"@, Some("UNAVAILABLE"@), "The operation retry budget was exhausted."@);
}

/// The wait for an instant ends at that instant; one that has passed is not waited for.
pub proof fn law_waits_end_at_the_instant(not_before: (u64, u32), now: i128)
    ensures
        ({
            let instant = not_before.0 * 1_000_000_000 + not_before.1;
            &&& instant <= now ==> wait_until(not_before, now) == 0
            &&& now <= instant <= now + u64::MAX ==> now + wait_until(not_before, now) == instant
        }),
{
}

/// A guest that names an instant is tried again then; any other repetition waits longer each
/// time.
pub proof fn law_repetitions_wait(
    result: Result<Result<(), Failure>, ExecutionError>,
    background: bool,
    attempt: u32,
    now: i128,
)
    requires
        delay_after(result, background, attempt, now) is Some,
    ensures
        match result {
            Ok(Err(Failure::Unavailable(Retry { not_before: Some(instant), .. }))) => delay_after(
                result,
                background,
                attempt,
                now,
            ) == Some(wait_until(instant, now) as int),
            _ => attempt >= 1 && attempt < u32::MAX ==> delay_after(result, background, (attempt + 1) as u32, now)->0 == 2
                * delay_after(result, background, attempt, now)->0 && (attempt == 1 ==> delay_after(
                result,
                background,
                attempt,
                now,
            ) == Some(5_000_000_000int)),
        },
{
    if attempt >= 1 && attempt < u32::MAX {
        law_backoff_doubles(attempt as nat);
        let now = backoff_seconds(attempt as nat);
        assert((2 * now) * SECOND == 2 * (now * SECOND)) by (nonlinear_arith);
    }
}

} // verus!
