//! Commands of the authoring tool: their arguments, their output and their exit codes.

use vstd::prelude::*;
use vstd::string::*;

use crate::inputs::{file_entry, strings, Arguments};
use crate::json::{
    indented_json_text, json_text, lemma_array, lemma_object, lookup, member, members_of, number_in, text_in,
    values_of, write_indented_json, write_json, Json, JsonValue, Number, NumberView,
};
use crate::publication::{endpoint, is_bearer, origin_of, Endpoint};
use crate::table::Table;
use crate::text::{
    cut, cut_text, in_small_letters, joined, lemma_cut, lemma_cut_at, lemma_pieces_nonempty, pieces, push_text,
    same_text, split_text, trim_text, trimmed, without_trailing, write_small,
};
use crate::tool::{one_member, unsigned, Error, Validation};

verus! {

/// What a command reports of arguments that it cannot use.
pub open spec fn usage_value(message: Seq<char>) -> JsonValue {
    JsonValue::Object(
        seq![
            ("code"@, JsonValue::Text("USAGE"@)),
            ("exit"@, unsigned(2)),
            ("message"@, JsonValue::Text(message)),
            ("retryable"@, JsonValue::Bool(false)),
            ("details"@, JsonValue::Object(Seq::empty())),
        ],
    )
}

/// Reports arguments that a command cannot use.
pub fn usage(message: &str) -> (report: Json)
    ensures
        report@ == usage_value(message@),
{
    let empty: Vec<(String, Json)> = Vec::new();
    let mut members: Vec<(String, Json)> = Vec::new();
    proof {
        lemma_object(empty);
        assert(members_of(empty@) =~= Seq::empty());
    }
    members.push(("code".to_owned(), Json::Text("USAGE".to_owned())));
    members.push(("exit".to_owned(), Json::Number(Number::Unsigned(2))));
    members.push(("message".to_owned(), Json::Text(message.to_owned())));
    members.push(("retryable".to_owned(), Json::Bool(false)));
    members.push(("details".to_owned(), Json::Object(empty)));
    proof {
        lemma_object(members);
        assert(members_of(members@) =~= usage_value(message@)->Object_0);
    }
    Json::Object(members)
}

/// Reads an argument written `NAME=PATH`.
pub fn fixture(text: &str) -> (entry: Result<(String, String), String>)
    ensures
        match file_entry(JsonValue::Text(text@)) {
            Some((name, path)) => entry matches Ok((found, at)) && found@ == name && at@ == path,
            None => entry matches Err(message) && message@ == "expected NAME=PATH"@,
        },
{
    match cut_text(text, '=') {
        Some((name, path)) => {
            if !name.as_str().is_empty() && !path.as_str().is_empty() {
                return Ok((name, path));
            }
        },
        None => {},
    }
    Err("expected NAME=PATH".to_owned())
}

/// The paths by name of several fixtures behind `files`, or the first name that comes
/// twice.
pub open spec fn fixture_map(entries: Seq<(String, String)>, files: Map<Seq<char>, Seq<char>>) -> Result<
    Map<Seq<char>, Seq<char>>,
    Seq<char>,
>
    decreases entries.len(),
{
    if entries.len() == 0 {
        Ok(files)
    } else if files.dom().contains(entries[0].0@) {
        Err(entries[0].0@)
    } else {
        fixture_map(entries.drop_first(), files.insert(entries[0].0@, entries[0].1@))
    }
}

/// Collects fixtures, whose names have to differ.
pub fn fixtures(entries: Vec<(String, String)>) -> (files: Result<Table<String>, String>)
    ensures
        match fixture_map(entries@, Map::empty()) {
            Ok(expected) => files matches Ok(files) && files.wf() && strings(files) == expected,
            Err(name) => files matches Err(message) && message@ == "duplicate fixture key "@ + name,
        },
{
    let mut files: Table<String> = Table::new();
    let mut index: usize = 0;
    assert(strings(files) =~= Map::empty());
    assert(entries@.skip(0) =~= entries@);
    while index < entries.len()
        invariant
            index <= entries.len(),
            files.wf(),
            fixture_map(entries@.skip(index as int), strings(files)) == fixture_map(entries@, Map::empty()),
        decreases entries.len() - index,
    {
        let name = &entries[index].0;
        let ghost rest = entries@.skip(index as int);
        proof {
            assert(rest[0] == entries@[index as int]);
            assert(rest.drop_first() =~= entries@.skip(index + 1));
            assert(strings(files).dom() =~= files@.dom());
        }
        let ghost before = strings(files);
        if files.contains(name.as_str()) {
            return Err(joined("duplicate fixture key ", name.as_str()));
        }
        files.insert(name.clone(), entries[index].1.clone());
        assert(strings(files) =~= before.insert(name@, entries@[index as int].1@));
        index += 1;
    }
    Ok(files)
}

/// What to run, and with which inputs.
pub struct RunOptions {
    /// The directory that holds `dist/extension.wasm`.
    pub directory: String,
    pub action: String,
    /// Where to export to; nothing may stand there yet.
    pub out: String,
    pub parameters: Json,
    pub configuration: Json,
    /// The paths of local files by the name of the source; `None` for a path that is no
    /// Unicode.
    pub sources: Vec<(String, Option<String>)>,
    /// The paths of fixtures by the name of the resource.
    pub resources: Vec<(String, Option<String>)>,
}

/// What is wrong with a fixture, or how it is written as an argument.
pub open spec fn fixture_argument(name: Seq<char>, path: Option<Seq<char>>) -> Result<Seq<char>, Seq<char>> {
    match path {
        None => Err("fixture paths must be UTF-8"@),
        Some(path) => if name.len() == 0 || name.contains('=') {
            Err("fixture keys must be nonempty and cannot contain '='"@)
        } else {
            Ok(name + "="@ + path)
        },
    }
}

/// The arguments for the first `end` fixtures, or the words for the first that is wrong.
pub open spec fn fixture_arguments_of(files: Seq<(String, Option<String>)>, end: int) -> Result<
    Seq<JsonValue>,
    Seq<char>,
>
    decreases end,
{
    if end <= 0 {
        Ok(Seq::empty())
    } else {
        match fixture_arguments_of(files, end - 1) {
            Err(words) => Err(words),
            Ok(earlier) => {
                let (name, path) = files[end - 1];
                match fixture_argument(
                    name@,
                    match path {
                        Some(path) => Some(path@),
                        None => None,
                    },
                ) {
                    Err(words) => Err(words),
                    Ok(argument) => Ok(earlier.push(JsonValue::Text(argument))),
                }
            },
        }
    }
}

proof fn lemma_first_fault_stays(files: Seq<(String, Option<String>)>, end: int, later: int)
    requires
        0 <= end <= later,
        fixture_arguments_of(files, end) is Err,
    ensures
        fixture_arguments_of(files, later) == fixture_arguments_of(files, end),
    decreases later - end,
{
    if end < later {
        lemma_first_fault_stays(files, end, later - 1);
    }
}

/// Writes fixtures as the arguments of a run.
pub fn fixture_arguments(files: &Vec<(String, Option<String>)>) -> (arguments: Result<Vec<Json>, Error>)
    ensures
        match fixture_arguments_of(files@, files@.len() as int) {
            Ok(expected) => arguments matches Ok(arguments) && values_of(arguments@) == expected,
            Err(words) => arguments matches Err(Error::Usage(message)) && message@ == words,
        },
{
    let mut arguments: Vec<Json> = Vec::new();
    let mut index: usize = 0;
    assert(values_of(arguments@) =~= Seq::empty());
    while index < files.len()
        invariant
            index <= files.len(),
            fixture_arguments_of(files@, index as int) == Ok::<_, Seq<char>>(values_of(arguments@)),
        decreases files.len() - index,
    {
        let name = &files[index].0;
        let ghost before = arguments@;
        let path = match &files[index].1 {
            Some(path) => path,
            None => {
                proof {
                    lemma_first_fault_stays(files@, index + 1, files@.len() as int);
                }
                return Err(Error::Usage("fixture paths must be UTF-8".to_owned()));
            },
        };
        proof {
            lemma_cut(name@, '=');
            if cut(name@, '=') is Some {
                let (start, rest) = cut(name@, '=')->Some_0;
                assert(name@[start.len() as int] == '=');
            }
        }
        if name.as_str().is_empty() || cut_text(name.as_str(), '=').is_some() {
            proof {
                lemma_first_fault_stays(files@, index + 1, files@.len() as int);
            }
            return Err(Error::Usage("fixture keys must be nonempty and cannot contain '='".to_owned()));
        }
        let mut argument = joined(name.as_str(), "=");
        push_text(&mut argument, path.as_str());
        arguments.push(Json::Text(argument));
        assert(values_of(arguments@) =~= values_of(before).push(JsonValue::Text(name@ + "="@ + path@)));
        index += 1;
    }
    Ok(arguments)
}

/// A fixture written as an argument reads back as what it was, where it has a path.
pub proof fn law_fixture_argument_reads_back(name: Seq<char>, path: Seq<char>)
    requires
        fixture_argument(name, Some(path)) is Ok,
        path.len() > 0,
    ensures
        file_entry(JsonValue::Text(fixture_argument(name, Some(path))->Ok_0)) == Some((name, path)),
{
    reveal_strlit("=");
    let whole = name + "="@ + path;
    assert forall|i: int| 0 <= i < name.len() implies whole[i] != '=' by {
        assert(name.contains(name[i]));
    }
    lemma_cut_at(whole, '=', name.len() as int);
    assert(whole.take(name.len() as int) =~= name);
    assert(whole.skip(name.len() as int + 1) =~= path);
}

/// Writes the options of a run as its arguments.
pub fn run_arguments(options: RunOptions) -> (arguments: Result<Arguments, Error>)
    ensures
        match fixture_arguments_of(options.sources@, options.sources@.len() as int) {
            Err(words) => arguments matches Err(Error::Usage(message)) && message@ == words,
            Ok(sources) => match fixture_arguments_of(options.resources@, options.resources@.len() as int) {
                Err(words) => arguments matches Err(Error::Usage(message)) && message@ == words,
                Ok(resources) => arguments matches Ok(arguments) && members_of(arguments@) == seq![
                    ("directory"@, JsonValue::Text(options.directory@)),
                    ("action"@, JsonValue::Text(options.action@)),
                    ("out"@, JsonValue::Text(options.out@)),
                    ("parameters"@, options.parameters@),
                    ("configuration"@, options.configuration@),
                    ("source"@, JsonValue::Array(sources)),
                    ("resource"@, JsonValue::Array(resources)),
                ],
            },
        },
{
    let sources = match fixture_arguments(&options.sources) {
        Ok(sources) => sources,
        Err(error) => return Err(error),
    };
    let resources = match fixture_arguments(&options.resources) {
        Ok(resources) => resources,
        Err(error) => return Err(error),
    };
    let mut arguments: Arguments = Vec::new();
    proof {
        lemma_array(sources);
        lemma_array(resources);
    }
    let ghost expected = seq![
        ("directory"@, JsonValue::Text(options.directory@)),
        ("action"@, JsonValue::Text(options.action@)),
        ("out"@, JsonValue::Text(options.out@)),
        ("parameters"@, options.parameters@),
        ("configuration"@, options.configuration@),
        ("source"@, JsonValue::Array(values_of(sources@))),
        ("resource"@, JsonValue::Array(values_of(resources@))),
    ];
    arguments.push(("directory".to_owned(), Json::Text(options.directory)));
    arguments.push(("action".to_owned(), Json::Text(options.action)));
    arguments.push(("out".to_owned(), Json::Text(options.out)));
    arguments.push(("parameters".to_owned(), options.parameters));
    arguments.push(("configuration".to_owned(), options.configuration));
    arguments.push(("source".to_owned(), Json::Array(sources)));
    arguments.push(("resource".to_owned(), Json::Array(resources)));
    assert(members_of(arguments@) =~= expected);
    Ok(arguments)
}

/// The operation of a run ended otherwise than well.
pub open spec fn run_failed(operation: JsonValue) -> bool {
    text_in(member(operation, "state"@)) matches Some(state) && state != "SUCCEEDED"@
}

/// What a command reports of a run that failed.
pub open spec fn failed_run(run: JsonValue) -> JsonValue {
    JsonValue::Object(
        seq![
            ("code"@, JsonValue::Text("EXTENSION_FAILED"@)),
            ("exit"@, unsigned(3)),
            ("message"@, JsonValue::Text("local extension operation failed"@)),
            ("retryable"@, JsonValue::Bool(false)),
            ("details"@, one_member("run"@, run)),
        ],
    )
}

/// Decides how a command ends whose run has left `operation` behind, and `run` as a
/// whole.
pub fn run_outcome(operation: &Json, run: Json) -> (outcome: Result<Json, Json>)
    ensures
        if run_failed(operation@) {
            outcome matches Err(report) && report@ == failed_run(run@)
        } else {
            outcome == Ok::<_, Json>(run)
        },
{
    let failed = match operation.get_text("state") {
        Some(state) => !same_text(state, "SUCCEEDED"),
        None => false,
    };
    if !failed {
        return Ok(run);
    }
    let ghost shown = run@;
    let mut details: Vec<(String, Json)> = Vec::new();
    details.push(("run".to_owned(), run));
    let mut members: Vec<(String, Json)> = Vec::new();
    proof {
        lemma_object(details);
        assert(members_of(details@) =~= seq![("run"@, shown)]);
    }
    members.push(("code".to_owned(), Json::Text("EXTENSION_FAILED".to_owned())));
    members.push(("exit".to_owned(), Json::Number(Number::Unsigned(3))));
    members.push(("message".to_owned(), Json::Text("local extension operation failed".to_owned())));
    members.push(("retryable".to_owned(), Json::Bool(false)));
    members.push(("details".to_owned(), Json::Object(details)));
    proof {
        lemma_object(members);
        assert(members_of(members@) =~= failed_run(shown)->Object_0);
    }
    Err(Json::Object(members))
}

/// What a command writes, and its exit code.
pub struct Shown {
    /// The line for the standard output.
    pub output: Option<String>,
    /// The line for the standard error.
    pub diagnostic: Option<String>,
    pub exit: u8,
}

/// The exit code that a report asks for.
pub open spec fn exit_of(report: JsonValue) -> u8 {
    match number_in(member(report, "exit"@)) {
        Some(exit) => if exit <= 255 {
            exit as u8
        } else {
            10
        },
        None => 10,
    }
}

/// The message that a report shows.
pub open spec fn message_of(report: JsonValue) -> Seq<char> {
    match text_in(member(report, "message"@)) {
        Some(message) => message,
        None => "extension operation failed"@,
    }
}

/// Decides what a command writes: JSON on one line where `json` asks for it, else what a
/// person reads.
pub fn show_result(result: Result<Json, Json>, json: bool) -> (shown: Shown)
    ensures
        match result {
            Ok(result) => {
                &&& shown.exit == 0
                &&& shown.diagnostic is None
                &&& shown.output matches Some(output) && output@ == if json {
                    json_text(result@)
                } else {
                    indented_json_text(result@)
                }
            },
            Err(error) => {
                &&& shown.exit == exit_of(error@)
                &&& if json {
                    &&& shown.output matches Some(output) && output@ == json_text(one_member("error"@, error@))
                    &&& shown.diagnostic is None
                } else {
                    &&& shown.output is None
                    &&& shown.diagnostic matches Some(diagnostic) && diagnostic@ == message_of(error@)
                }
            },
        },
{
    match result {
        Ok(result) => {
            let output = if json {
                write_json(&result)
            } else {
                write_indented_json(&result)
            };
            Shown { output: Some(output), diagnostic: None, exit: 0 }
        },
        Err(error) => {
            let exit = match error.get_number("exit") {
                Some(exit) => {
                    if exit <= 255 {
                        exit as u8
                    } else {
                        10
                    }
                },
                None => 10,
            };
            if json {
                let ghost reported = error@;
                let mut members: Vec<(String, Json)> = Vec::new();
                members.push(("error".to_owned(), error));
                proof {
                    lemma_object(members);
                    assert(members_of(members@) =~= seq![("error"@, reported)]);
                }
                Shown { output: Some(write_json(&Json::Object(members))), diagnostic: None, exit }
            } else {
                let diagnostic = match error.get_text("message") {
                    Some(message) => message.to_owned(),
                    None => "extension operation failed".to_owned(),
                };
                Shown { output: None, diagnostic: Some(diagnostic), exit }
            }
        },
    }
}

/// Returns the exit code of a component's static validation: zero where it is valid.
pub fn validation_exit(report: &Validation) -> (exit: u8)
    ensures
        exit == if report.valid {
            0u8
        } else {
            3u8
        },
{
    if report.valid {
        0
    } else {
        3
    }
}

/// Decides which commit a new project is pinned to: the one that was asked for, else the
/// one that the tool was built from.
pub fn pinned_revision<'a>(asked: Option<&'a str>, built: Option<&'a str>) -> (revision: Result<&'a str, Json>)
    ensures
        match (asked, built) {
            (Some(asked), _) => revision == Ok::<_, Json>(asked),
            (None, Some(built)) => revision == Ok::<_, Json>(built),
            (None, None) => revision matches Err(report) && report@ == usage_value(
                "use --sdk-revision with the immutable SDK commit"@,
            ),
        },
{
    match asked {
        Some(asked) => Ok(asked),
        None => match built {
            Some(built) => Ok(built),
            None => Err(usage("use --sdk-revision with the immutable SDK commit")),
        },
    }
}

/// The media type says that a body is JSON; its parameters do not matter.
pub open spec fn is_json_media(content_type: Seq<char>) -> bool {
    in_small_letters(trimmed(pieces(content_type, ';')[0])) == "application/json"@
}

/// Whether the media type, where there is one, says that a body is JSON.
pub fn json_media(content_type: Option<&str>) -> (json: bool)
    ensures
        json == (content_type matches Some(content_type) && is_json_media(content_type@)),
{
    match content_type {
        Some(content_type) => {
            let parts = split_text(content_type, ';');
            proof {
                lemma_pieces_nonempty(content_type@, ';');
                assert(parts@.map_values(|part: String| part@)[0] == parts@[0]@);
            }
            same_text(write_small(trim_text(parts[0].as_str()).as_str()).as_str(), "application/json")
        },
        None => false,
    }
}

/// Decides where the requests of a command go. `token` is the bearer that the environment
/// holds, where it holds one.
pub fn api_target(token: Option<&str>, api_url: &str) -> (target: Result<Endpoint, Json>)
    ensures
        match token {
            None => target matches Err(report) && report@ == usage_value(
                "SLOPER_API_TOKEN must contain the publishing bearer"@,
            ),
            Some(token) => if !is_bearer(token@) {
                target matches Err(report) && report@ == usage_value(
                    "publishing token must be a nonempty, bounded HTTP bearer"@,
                )
            } else {
                match origin_of(api_url@) {
                    None => target matches Err(report) && report@ == usage_value(
                        "API URL must be an absolute HTTP or HTTPS URL"@,
                    ),
                    Some(origin) => target matches Ok(target) && target.origin@ == origin && target.base@
                        == without_trailing(api_url@, '/') + "/api/v1"@,
                }
            },
        },
{
    let token = match token {
        Some(token) => token,
        None => return Err(usage("SLOPER_API_TOKEN must contain the publishing bearer")),
    };
    match endpoint(api_url, token) {
        Ok(target) => Ok(target),
        Err(error) => Err(error.command_error()),
    }
}

/// What a command shows of a decoded body: the body, nothing where there is none, or why
/// it could not be decoded.
pub open spec fn shows_body(body: Result<Option<JsonValue>, JsonValue>, shown: Result<Json, Json>) -> bool {
    match body {
        Ok(Some(value)) => shown matches Ok(shown) && shown@ == value,
        Ok(None) => shown matches Ok(shown) && shown@ == JsonValue::Null,
        Err(report) => shown matches Err(shown) && shown@ == report,
    }
}

/// Returns what a command shows of an answer: its body as JSON where its media type says
/// so, and as text otherwise. `as_json` and `as_text` decode the body.
pub fn api_answer<J: FnOnce() -> Result<Option<Json>, Error>, T: FnOnce() -> Result<Option<String>, Error>>(
    content_type: Option<&str>,
    as_json: J,
    as_text: T,
) -> (shown: Result<Json, Json>)
    requires
        call_requires(as_json, ()),
        call_requires(as_text, ()),
    ensures
        if content_type matches Some(content_type) && is_json_media(content_type@) {
            exists|body: Result<Option<Json>, Error>| #[trigger]
                call_ensures(as_json, (), body) && shows_body(
                    match body {
                        Ok(Some(value)) => Ok(Some(value@)),
                        Ok(None) => Ok(None),
                        Err(error) => Err(error.report_spec()),
                    },
                    shown,
                )
        } else {
            exists|body: Result<Option<String>, Error>| #[trigger]
                call_ensures(as_text, (), body) && shows_body(
                    match body {
                        Ok(Some(text)) => Ok(Some(JsonValue::Text(text@))),
                        Ok(None) => Ok(None),
                        Err(error) => Err(error.report_spec()),
                    },
                    shown,
                )
        },
{
    if json_media(content_type) {
        let body = as_json();
        let ghost decoded = body;
        assert(call_ensures(as_json, (), decoded));
        match body {
            Ok(Some(value)) => Ok(value),
            Ok(None) => Ok(Json::Null),
            Err(error) => Err(error.command_error()),
        }
    } else {
        let body = as_text();
        let ghost decoded = body;
        assert(call_ensures(as_text, (), decoded));
        match body {
            Ok(Some(text)) => Ok(Json::Text(text)),
            Ok(None) => Ok(Json::Null),
            Err(error) => Err(error.command_error()),
        }
    }
}

/// A run fails a command exactly where its operation is in a state other than success.
pub proof fn law_failed_runs(operation: JsonValue)
    ensures
        run_failed(operation) <==> {
            let state = member(operation, "state"@);
            &&& state is Some && state->0 is Text
            &&& state->0->Text_0 != seq!['S', 'U', 'C', 'C', 'E', 'E', 'D', 'E', 'D']
        },
{
    reveal_strlit("SUCCEEDED");
    assert("SUCCEEDED"@ =~= seq!['S', 'U', 'C', 'C', 'E', 'E', 'D', 'E', 'D']);
}

proof fn lemma_report_members(members: Seq<(Seq<char>, JsonValue)>)
    requires
        members.len() == 5,
        members[0].0 == "code"@,
        members[1].0 == "exit"@,
        members[2].0 == "message"@,
        members[3].0 == "retryable"@,
        members[4].0 == "details"@,
    ensures
        lookup(members, "code"@) == Some(members[0].1),
        lookup(members, "exit"@) == Some(members[1].1),
        lookup(members, "message"@) == Some(members[2].1),
        lookup(members, "retryable"@) == Some(members[3].1),
        lookup(members, "details"@) == Some(members[4].1),
{
    reveal_strlit("code");
    reveal_strlit("exit");
    reveal_strlit("message");
    reveal_strlit("retryable");
    reveal_strlit("details");
    assert("code"@[0] != "exit"@[0]);
    assert("message"@[0] != "details"@[0]);
    assert("code"@.len() == 4 && "exit"@.len() == 4 && "message"@.len() == 7 && "retryable"@.len() == 9
        && "details"@.len() == 7);
    reveal_with_fuel(lookup, 6);
    let rest = members.drop_first();
    assert(rest[0] == members[1]);
    assert(rest.drop_first()[0] == members[2]);
    assert(rest.drop_first().drop_first()[0] == members[3]);
    assert(rest.drop_first().drop_first().drop_first()[0] == members[4]);
}

/// A failed run is reported with all that it left behind and ends the command with 3; wrong
/// arguments are reported in the words given and end it with 2. Neither is worth a second
/// try.
pub proof fn law_reports_of_commands(run: JsonValue, message: Seq<char>)
    ensures
        exit_of(failed_run(run)) == 3,
        exit_of(usage_value(message)) == 2,
        message_of(usage_value(message)) == message,
        member(failed_run(run), "retryable"@) == Some(JsonValue::Bool(false)),
        member(usage_value(message), "retryable"@) == Some(JsonValue::Bool(false)),
        member(failed_run(run), "code"@) == Some(JsonValue::Text("EXTENSION_FAILED"@)),
        member(usage_value(message), "code"@) == Some(JsonValue::Text("USAGE"@)),
        ({
            let details = member(failed_run(run), "details"@);
            details is Some && member(details->0, "run"@) == Some(run)
        }),
{
    lemma_report_members(failed_run(run)->Object_0);
    lemma_report_members(usage_value(message)->Object_0);
    reveal_with_fuel(lookup, 2);
}

/// A report ends its command with the exit code that it names, where that is one, and with
/// 10 otherwise; it is shown by its message, where it has one.
pub proof fn law_exits_of_reports(report: JsonValue, exit: u64)
    ensures
        member(report, "exit"@) == Some(JsonValue::Number(NumberView::Unsigned(exit))) && exit < 256 ==> exit_of(report)
            == exit,
        member(report, "exit"@) == Some(JsonValue::Number(NumberView::Unsigned(exit))) && exit >= 256 ==> exit_of(report)
            == 10,
        member(report, "exit"@) is None ==> exit_of(report) == 10,
        member(report, "message"@) matches Some(JsonValue::Text(message)) ==> message_of(report) == message,
{
}

/// The media type of a body is what stands before the parameters, whatever they are, without
/// the white space around it and in letters of either case.
pub proof fn law_json_bodies(media: Seq<char>, parameters: Seq<char>)
    requires
        !media.contains(';'),
    ensures
        is_json_media(media) <==> in_small_letters(trimmed(media)) == seq![
            'a',
            'p',
            'p',
            'l',
            'i',
            'c',
            'a',
            't',
            'i',
            'o',
            'n',
            '/',
            'j',
            's',
            'o',
            'n',
        ],
        is_json_media(media + seq![';'] + parameters) == is_json_media(media),
{
    reveal_strlit("application/json");
    assert("application/json"@ =~= seq![
        'a',
        'p',
        'p',
        'l',
        'i',
        'c',
        'a',
        't',
        'i',
        'o',
        'n',
        '/',
        'j',
        's',
        'o',
        'n',
    ]);
    lemma_cut(media, ';');
    if let Some((before, behind)) = cut(media, ';') {
        assert(media[before.len() as int] == ';');
    }
    assert(pieces(media, ';')[0] == media);
    let text = media + seq![';'] + parameters;
    assert forall|i: int| 0 <= i < media.len() implies text[i] != ';' by {
        assert(text[i] == media[i]);
    }
    assert(text[media.len() as int] == ';');
    lemma_cut_at(text, ';', media.len() as int);
    assert(text.take(media.len() as int) =~= media);
    assert(pieces(text, ';')[0] == media);
}

/// Fixtures are collected exactly where no name comes twice, each is found under its name,
/// and no other name is found.
pub proof fn law_fixtures_are_collected(entries: Seq<(String, String)>, files: Map<Seq<char>, Seq<char>>)
    ensures
        fixture_map(entries, files) is Ok <==> {
            &&& forall|i: int| 0 <= i < entries.len() ==> !files.dom().contains((#[trigger] entries[i]).0@)
            &&& forall|i: int, j: int|
                0 <= i < j < entries.len() ==> (#[trigger] entries[i]).0@ != (#[trigger] entries[j]).0@
        },
        fixture_map(entries, files) matches Ok(found) ==> {
            &&& forall|i: int|
                0 <= i < entries.len() ==> found.dom().contains((#[trigger] entries[i]).0@) && found[entries[i].0@]
                    == entries[i].1@
            &&& forall|name: Seq<char>| #[trigger]
                files.dom().contains(name) ==> found.dom().contains(name) && found[name] == files[name]
            &&& forall|name: Seq<char>| #[trigger]
                found.dom().contains(name) ==> files.dom().contains(name) || exists|i: int|
                    0 <= i < entries.len() && (#[trigger] entries[i]).0@ == name
        },
    decreases entries.len(),
{
    if entries.len() > 0 {
        let rest = entries.drop_first();
        let name = entries[0].0@;
        let more = files.insert(name, entries[0].1@);
        assert forall|i: int| 0 < i < entries.len() implies #[trigger] entries[i] == rest[i - 1] by {}
        assert forall|i: int| 0 <= i < rest.len() implies #[trigger] rest[i] == entries[i + 1] by {}
        law_fixtures_are_collected(rest, more);
        if !files.dom().contains(name) && fixture_map(rest, more) is Ok {
            let found = fixture_map(rest, more)->Ok_0;
            assert(more.dom().contains(name));
            assert forall|i: int| 0 <= i < entries.len() implies !files.dom().contains((#[trigger] entries[i]).0@) by {
                if i > 0 {
                    assert(!more.dom().contains(rest[i - 1].0@));
                }
            }
            assert forall|i: int, j: int| 0 <= i < j < entries.len() implies (#[trigger] entries[i]).0@ != (
            #[trigger] entries[j]).0@ by {
                assert(!more.dom().contains(rest[j - 1].0@));
                if i > 0 {
                    assert(entries[i] == rest[i - 1]);
                }
            }
            assert forall|i: int| 0 <= i < entries.len() implies found.dom().contains((#[trigger] entries[i]).0@)
                && found[entries[i].0@] == entries[i].1@ by {
                if i > 0 {
                    assert(entries[i] == rest[i - 1]);
                }
            }
            assert forall|other: Seq<char>| #[trigger] files.dom().contains(other) implies found.dom().contains(other)
                && found[other] == files[other] by {
                assert(more.dom().contains(other));
            }
            assert forall|other: Seq<char>| #[trigger] found.dom().contains(other) implies files.dom().contains(other)
                || exists|i: int| 0 <= i < entries.len() && (#[trigger] entries[i]).0@ == other by {
                if other == name {
                    assert(entries[0].0@ == other);
                } else if !more.dom().contains(other) {
                    let i = choose|i: int| 0 <= i < rest.len() && (#[trigger] rest[i]).0@ == other;
                    assert(entries[i + 1].0@ == other);
                }
            }
        }
        if (forall|i: int| 0 <= i < entries.len() ==> !files.dom().contains((#[trigger] entries[i]).0@)) && (forall|
            i: int,
            j: int,
        |
            0 <= i < j < entries.len() ==> (#[trigger] entries[i]).0@ != (#[trigger] entries[j]).0@) {
            assert(!files.dom().contains(entries[0].0@));
            assert forall|i: int| 0 <= i < rest.len() implies !more.dom().contains((#[trigger] rest[i]).0@) by {
                assert(entries[0].0@ != entries[i + 1].0@);
            }
            assert forall|i: int, j: int| 0 <= i < j < rest.len() implies (#[trigger] rest[i]).0@ != (
            #[trigger] rest[j]).0@ by {
                assert(entries[i + 1].0@ != entries[j + 1].0@);
            }
        }
    }
}

/// Every fixture of a run becomes one argument, in its order: its name, an equals sign and
/// its path.
pub proof fn law_fixtures_become_arguments(files: Seq<(String, Option<String>)>, end: int)
    requires
        0 <= end <= files.len(),
    ensures
        fixture_arguments_of(files, end) is Ok <==> forall|i: int|
            0 <= i < end ==> (#[trigger] files[i]).1 is Some && files[i].0@.len() > 0 && !files[i].0@.contains('='),
        fixture_arguments_of(files, end) matches Ok(arguments) ==> arguments.len() == end && forall|i: int|
            0 <= i < end ==> #[trigger] arguments[i] == JsonValue::Text(files[i].0@ + seq!['='] + files[i].1->0@),
    decreases end,
{
    reveal_strlit("=");
    assert("="@ =~= seq!['=']);
    if end > 0 {
        law_fixtures_become_arguments(files, end - 1);
    }
}

} // verus!
