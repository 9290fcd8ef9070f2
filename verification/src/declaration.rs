//! Declaring connections, actions and extensions.

use vstd::prelude::*;
use vstd::string::*;

use crate::attributes::{
    checked_path, collect_entries, crate_path, display_words, entries_of, entry_views, is_crate_path, is_display,
    is_named, meta_path, meta_text, path_of, path_value, repeated, repeated_words, text_value, validate_text,
    Attribute, Contents, Entry, EntryView, Literal, Meta, MetaValue,
};
use crate::derive::{is_manifest_key, text_of_option, validate_key, Data, Declaration};
use crate::identity::{is_extension_name, is_label};
use crate::json::{
    json_text, lemma_array, lemma_object, lookup, member, members_of, values_of, write_json, Json, JsonValue,
};
use crate::schema::{tokens_of, type_tokens, RustType, TypeArguments};
use crate::text::{
    byte_count, byte_len, chars_of, holds_text, is_whitespace, join_texts, joined, joined_by, pieces, replace_text,
    replaced, same_text, split_text, texts, trim_text, trimmed, whitespace,
};

verus! {

/// What the entries of `connection` attributes say.
pub struct ConnectionEntries<'a> {
    pub name: Option<String>,
    pub profile: Option<String>,
    pub scopes: Option<&'a Vec<Literal>>,
    pub crate_path: Option<String>,
}

/// What the entries of `connection` attributes say.
pub ghost struct ConnectionView {
    pub name: Option<Seq<char>>,
    pub profile: Option<Seq<char>>,
    pub scopes: Option<Seq<Literal>>,
    pub crate_path: Option<Seq<char>>,
}

impl View for ConnectionEntries<'_> {
    type V = ConnectionView;

    open spec fn view(&self) -> ConnectionView {
        ConnectionView {
            name: text_of_option(self.name),
            profile: text_of_option(self.profile),
            scopes: match self.scopes {
                Some(scopes) => Some(scopes@),
                None => None,
            },
            crate_path: text_of_option(self.crate_path),
        }
    }
}

/// What the entry `key` makes of what was said before, or what is wrong with it.
pub open spec fn connection_step(said: ConnectionView, key: Seq<char>, value: MetaValue) -> Result<
    ConnectionView,
    Seq<char>,
> {
    if key == "name"@ {
        match text_value(value) {
            Err(words) => Err(words),
            Ok(text) => Ok(ConnectionView { name: Some(text), ..said }),
        }
    } else if key == "profile"@ {
        match text_value(value) {
            Err(words) => Err(words),
            Ok(text) => Ok(ConnectionView { profile: Some(text), ..said }),
        }
    } else if key == "scopes"@ {
        match value {
            MetaValue::Equals(Literal::Array(scopes)) => Ok(ConnectionView { scopes: Some(scopes@), ..said }),
            MetaValue::Equals(_) => Err("expected square brackets"@),
            _ => Err("expected `=`"@),
        }
    } else if key == "crate"@ {
        match path_value(value) {
            Err(words) => Err(words),
            Ok(path) => Ok(ConnectionView { crate_path: Some(path), ..said }),
        }
    } else {
        Err("Supported connection options are `name`, `profile`, `scopes`, and `crate`."@)
    }
}

/// What the entries from `index` on make of what was said before.
pub open spec fn connection_from(
    said: ConnectionView,
    names: Seq<Seq<char>>,
    entries: Seq<EntryView>,
    index: int,
) -> Result<ConnectionView, Seq<char>>
    decreases entries.len() - index,
{
    if index < 0 || index >= entries.len() {
        Ok(said)
    } else {
        match entries[index] {
            EntryView::Broken(words) => Err(words),
            EntryView::Meta(meta) => match meta.name {
                None => Err("Use `name`, `profile`, `scopes`, or `crate`."@),
                Some(key) => if names.contains(key@) {
                    Err(repeated_words(key@))
                } else {
                    match connection_step(said, key@, meta.value) {
                        Err(words) => Err(words),
                        Ok(next) => connection_from(next, names.push(key@), entries, index + 1),
                    }
                },
            },
        }
    }
}

/// Nothing said of a connection.
pub open spec fn no_connection() -> ConnectionView {
    ConnectionView { name: None, profile: None, scopes: None, crate_path: None }
}

fn connection_entries<'a>(attributes: &'a Vec<Attribute>) -> (result: Result<ConnectionEntries<'a>, String>)
    ensures
        match connection_from(
            no_connection(),
            Seq::empty(),
            entries_of(attributes@, "connection"@, attributes@.len() as int),
            0,
        ) {
            Ok(expected) => result matches Ok(result) && result@ == expected,
            Err(words) => result matches Err(message) && message@ == words,
        },
{
    let entries = collect_entries(attributes, "connection");
    let ghost shown = entry_views(entries@);
    let ghost outcome = connection_from(no_connection(), Seq::empty(), shown, 0);
    let mut said: ConnectionEntries<'a> = ConnectionEntries { name: None, profile: None, scopes: None, crate_path: None };
    let mut names: Vec<String> = Vec::new();
    let mut index: usize = 0;
    assert(texts(names@) =~= Seq::empty());
    while index < entries.len()
        invariant
            index <= entries.len(),
            shown == entry_views(entries@),
            shown == entries_of(attributes@, "connection"@, attributes@.len() as int),
            outcome == connection_from(no_connection(), Seq::empty(), shown, 0),
            outcome == connection_from(said@, texts(names@), shown, index as int),
        decreases entries.len() - index,
    {
        assert(shown[index as int] == entries@[index as int]@);
        let meta = match &entries[index] {
            Entry::Meta(meta) => *meta,
            Entry::Broken(words) => return Err((*words).to_owned()),
        };
        let key = match &meta.name {
            Some(key) => key,
            None => return Err("Use `name`, `profile`, `scopes`, or `crate`.".to_owned()),
        };
        if holds_text(&names, key.as_str()) {
            return Err(repeated(key.as_str()));
        }
        if same_text(key.as_str(), "name") {
            match meta_text(&meta.value) {
                Ok(text) => {
                    said.name = Some(text.to_owned());
                },
                Err(message) => return Err(message),
            }
        } else if same_text(key.as_str(), "profile") {
            match meta_text(&meta.value) {
                Ok(text) => {
                    said.profile = Some(text.to_owned());
                },
                Err(message) => return Err(message),
            }
        } else if same_text(key.as_str(), "scopes") {
            match &meta.value {
                MetaValue::Equals(Literal::Array(scopes)) => {
                    said.scopes = Some(scopes);
                },
                MetaValue::Equals(_) => return Err("expected square brackets".to_owned()),
                _ => return Err("expected `=`".to_owned()),
            }
        } else if same_text(key.as_str(), "crate") {
            match meta_path(&meta.value) {
                Ok(path) => {
                    said.crate_path = Some(path);
                },
                Err(message) => return Err(message),
            }
        } else {
            return Err("Supported connection options are `name`, `profile`, `scopes`, and `crate`.".to_owned());
        }
        let ghost before = names@;
        names.push(key.clone());
        assert(texts(names@) =~= texts(before).push(key@));
        index += 1;
    }
    assert(shown.len() == entries@.len());
    Ok(said)
}

/// A text without white space.
pub open spec fn is_solid(text: Seq<char>) -> bool {
    forall|index: int| 0 <= index < text.len() ==> !whitespace(#[trigger] text[index])
}

fn solid(text: &str) -> (result: bool)
    ensures
        result == is_solid(text@),
{
    let characters = chars_of(text);
    let mut index: usize = 0;
    while index < characters.len()
        invariant
            index <= characters.len(),
            characters@ == text@,
            forall|i: int| 0 <= i < index ==> !whitespace(#[trigger] text@[i]),
        decreases characters.len() - index,
    {
        if is_whitespace(characters[index]) {
            assert(whitespace(text@[index as int]));
            return false;
        }
        index += 1;
    }
    true
}

/// The first `end` scopes, or what is wrong with the first that is wrong.
pub open spec fn scopes_before(scopes: Seq<Literal>, end: int) -> Result<Seq<Seq<char>>, Seq<char>>
    decreases end,
{
    if end <= 0 {
        Ok(Seq::empty())
    } else {
        match scopes_before(scopes, end - 1) {
            Err(words) => Err(words),
            Ok(values) => match scopes[end - 1] {
                Literal::Text(scope) => if !is_display(scope@, 512) {
                    Err(display_words(512))
                } else if scope@.len() == 0 || !is_solid(scope@) || values.contains(scope@) {
                    Err("Scopes must be non-empty, unique strings without whitespace."@)
                } else {
                    Ok(values.push(scope@))
                },
                _ => Err("Each scope must be a string literal."@),
            },
        }
    }
}

proof fn lemma_first_wrong_scope(scopes: Seq<Literal>, end: int, later: int)
    requires
        0 <= end <= later,
        scopes_before(scopes, end) is Err,
    ensures
        scopes_before(scopes, later) == scopes_before(scopes, end),
    decreases later - end,
{
    if end < later {
        lemma_first_wrong_scope(scopes, end, later - 1);
    }
}

/// The scopes of a connection, or what is wrong with them.
pub open spec fn scopes_of(scopes: Seq<Literal>) -> Result<Seq<Seq<char>>, Seq<char>> {
    match scopes_before(scopes, scopes.len() as int) {
        Err(words) => Err(words),
        Ok(values) => if 0 < values.len() <= 32 {
            Ok(values)
        } else {
            Err("Declare between one and 32 unique connection scopes."@)
        },
    }
}

/// Reads the scopes of a connection.
pub fn scope_values(scopes: &Vec<Literal>) -> (result: Result<Vec<String>, String>)
    ensures
        match scopes_of(scopes@) {
            Ok(expected) => result matches Ok(values) && texts(values@) == expected,
            Err(words) => result matches Err(message) && message@ == words,
        },
{
    let mut values: Vec<String> = Vec::new();
    let mut index: usize = 0;
    assert(texts(values@) =~= Seq::empty());
    while index < scopes.len()
        invariant
            index <= scopes.len(),
            scopes_before(scopes@, index as int) == Ok::<_, Seq<char>>(texts(values@)),
        decreases scopes.len() - index,
    {
        proof {
            if scopes_before(scopes@, index + 1) is Err {
                lemma_first_wrong_scope(scopes@, index + 1, scopes@.len() as int);
            }
        }
        let scope = match &scopes[index] {
            Literal::Text(scope) => scope,
            _ => return Err("Each scope must be a string literal.".to_owned()),
        };
        match validate_text(scope.as_str(), 512) {
            Ok(_) => {},
            Err(message) => return Err(message),
        }
        if scope.as_str().is_empty() || !solid(scope.as_str()) || holds_text(&values, scope.as_str()) {
            return Err("Scopes must be non-empty, unique strings without whitespace.".to_owned());
        }
        let ghost before = values@;
        values.push(scope.clone());
        assert(texts(values@) =~= texts(before).push(scope@));
        index += 1;
    }
    if values.len() == 0 || values.len() > 32 {
        return Err("Declare between one and 32 unique connection scopes.".to_owned());
    }
    Ok(values)
}

/// What a connection declares.
pub struct ConnectionPart {
    pub name: String,
    pub profile: String,
    pub scopes: Vec<String>,
    /// The declaration as JSON.
    pub part: String,
    pub crate_path: Option<String>,
}

/// A connection as JSON.
pub open spec fn connection_value(name: Seq<char>, profile: Seq<char>, scopes: Seq<Seq<char>>) -> JsonValue {
    JsonValue::Object(
        seq![
            ("kind"@, JsonValue::Text("connection"@)),
            ("name"@, JsonValue::Text(name)),
            ("profile"@, JsonValue::Text(profile)),
            ("scopes"@, JsonValue::Array(scopes.map_values(|scope: Seq<char>| JsonValue::Text(scope)))),
        ],
    )
}

fn write_connection(name: &str, profile: &str, scopes: &Vec<String>) -> (text: String)
    ensures
        text@ == json_text(connection_value(name@, profile@, texts(scopes@))),
{
    let mut items: Vec<Json> = Vec::new();
    let mut index: usize = 0;
    while index < scopes.len()
        invariant
            index <= scopes.len(),
            items@.len() == index,
            forall|i: int| 0 <= i < index ==> (#[trigger] items@[i])@ == JsonValue::Text(scopes@[i]@),
        decreases scopes.len() - index,
    {
        items.push(Json::Text(scopes[index].clone()));
        index += 1;
    }
    proof {
        lemma_array(items);
        assert(values_of(items@) =~= texts(scopes@).map_values(|scope: Seq<char>| JsonValue::Text(scope)));
    }
    let mut members: Vec<(String, Json)> = Vec::new();
    members.push(("kind".to_owned(), Json::Text("connection".to_owned())));
    members.push(("name".to_owned(), Json::Text(name.to_owned())));
    members.push(("profile".to_owned(), Json::Text(profile.to_owned())));
    members.push(("scopes".to_owned(), Json::Array(items)));
    proof {
        lemma_object(members);
        assert(members_of(members@) =~= connection_value(name@, profile@, texts(scopes@))->Object_0);
    }
    write_json(&Json::Object(members))
}

/// What a declared connection is, or what is wrong with its declaration.
pub open spec fn connection_of(declaration: Declaration) -> Result<
    (Seq<char>, Seq<char>, Seq<Seq<char>>, Option<Seq<char>>),
    Seq<char>,
> {
    if declaration.generic {
        Err("Connection declarations are concrete unit types and cannot have generic parameters."@)
    } else if !(declaration.data is Unit) {
        Err(
            "Declare a connection as a unit struct with `#[connection(name = \"ledger\", profile = \"acme.ledger\", scopes = [\"items.read\"])]`."@,
        )
    } else {
        match connection_from(
            no_connection(),
            Seq::empty(),
            entries_of(declaration.attributes@, "connection"@, declaration.attributes@.len() as int),
            0,
        ) {
            Err(words) => Err(words),
            Ok(said) => match said.name {
                None => Err("A connection declaration requires `name = \"ledger\"`."@),
                Some(name) => if !is_manifest_key(name) {
                    Err("Manifest keys must use kebab-case and fit 64 characters."@)
                } else {
                    match said.profile {
                        None => Err("A connection declaration requires `profile = \"acme.ledger\"`."@),
                        Some(profile) => if !is_display(profile, 128) {
                            Err(display_words(128))
                        } else if profile.len() == 0 {
                            Err("A connection profile cannot be empty."@)
                        } else {
                            match said.scopes {
                                None => Err(
                                    "A connection declaration requires non-empty `scopes = [\"items.read\"]`."@,
                                ),
                                Some(scopes) => match scopes_of(scopes) {
                                    Err(words) => Err(words),
                                    Ok(values) => Ok((name, profile, values, said.crate_path)),
                                },
                            }
                        },
                    }
                },
            },
        }
    }
}

/// Declares a connection: a named profile and the scopes it asks for.
pub fn connection(declaration: &Declaration) -> (result: Result<ConnectionPart, String>)
    ensures
        match connection_of(*declaration) {
            Ok((name, profile, scopes, path)) => {
                &&& result matches Ok(part)
                &&& part.name@ == name
                &&& part.profile@ == profile
                &&& texts(part.scopes@) == scopes
                &&& part.part@ == json_text(connection_value(name, profile, scopes))
                &&& text_of_option(part.crate_path) == path
            },
            Err(words) => result matches Err(message) && message@ == words,
        },
{
    if declaration.generic {
        return Err("Connection declarations are concrete unit types and cannot have generic parameters.".to_owned());
    }
    match &declaration.data {
        Data::Unit => {},
        _ => return Err(
            "Declare a connection as a unit struct with `#[connection(name = \"ledger\", profile = \"acme.ledger\", scopes = [\"items.read\"])]`.".to_owned(),
        ),
    }
    let said = match connection_entries(&declaration.attributes) {
        Ok(said) => said,
        Err(message) => return Err(message),
    };
    let name = match said.name {
        Some(name) => name,
        None => return Err("A connection declaration requires `name = \"ledger\"`.".to_owned()),
    };
    match validate_key(name.as_str()) {
        Ok(_) => {},
        Err(message) => return Err(message),
    }
    let profile = match said.profile {
        Some(profile) => profile,
        None => return Err("A connection declaration requires `profile = \"acme.ledger\"`.".to_owned()),
    };
    match validate_text(profile.as_str(), 128) {
        Ok(_) => {},
        Err(message) => return Err(message),
    }
    if profile.as_str().is_empty() {
        return Err("A connection profile cannot be empty.".to_owned());
    }
    let scopes = match said.scopes {
        Some(scopes) => scopes,
        None => return Err("A connection declaration requires non-empty `scopes = [\"items.read\"]`.".to_owned()),
    };
    let values = match scope_values(scopes) {
        Ok(values) => values,
        Err(message) => return Err(message),
    };
    let part = write_connection(name.as_str(), profile.as_str(), &values);
    Ok(ConnectionPart { name, profile, scopes: values, part, crate_path: said.crate_path })
}

/// The lines of documentation among the first `end` attributes, without white space
/// around them.
pub open spec fn doc_lines(attributes: Seq<Attribute>, end: int) -> Seq<Seq<char>>
    decreases end,
{
    if end <= 0 {
        Seq::empty()
    } else {
        let earlier = doc_lines(attributes, end - 1);
        match attributes[end - 1].contents {
            Contents::Text(text) => if is_named(attributes[end - 1], "doc"@) {
                earlier.push(trimmed(text@))
            } else {
                earlier
            },
            _ => earlier,
        }
    }
}

/// The description of a declaration, where it is documented, or what is wrong with it.
pub open spec fn description_of(attributes: Seq<Attribute>) -> Result<Option<Seq<char>>, Seq<char>> {
    let lines = doc_lines(attributes, attributes.len() as int);
    let description = joined_by(lines, " "@);
    if lines.len() == 0 {
        Ok(None)
    } else if is_display(description, 200) {
        Ok(Some(description))
    } else {
        Err(display_words(200))
    }
}

/// Reads the description of a declaration from its documentation.
pub fn documentation(attributes: &Vec<Attribute>) -> (result: Result<Option<String>, String>)
    ensures
        match description_of(attributes@) {
            Ok(expected) => result matches Ok(description) && text_of_option(description) == expected,
            Err(words) => result matches Err(message) && message@ == words,
        },
{
    let mut lines: Vec<String> = Vec::new();
    let mut index: usize = 0;
    assert(texts(lines@) =~= Seq::empty());
    while index < attributes.len()
        invariant
            index <= attributes.len(),
            texts(lines@) == doc_lines(attributes@, index as int),
        decreases attributes.len() - index,
    {
        let documents = match &attributes[index].path {
            Some(path) => same_text(path.as_str(), "doc"),
            None => false,
        };
        if documents {
            if let Contents::Text(text) = &attributes[index].contents {
                let ghost before = lines@;
                lines.push(trim_text(text.as_str()));
                assert(texts(lines@) =~= texts(before).push(trimmed(text@)));
            }
        }
        index += 1;
    }
    if lines.len() == 0 {
        return Ok(None);
    }
    let description = join_texts(&lines, " ");
    match validate_text(description.as_str(), 200) {
        Ok(_) => Ok(Some(description)),
        Err(message) => Err(message),
    }
}

/// What an action does with an argument.
#[derive(Clone, Copy, Debug, PartialEq, Eq, Structural)]
pub enum Usage {
    /// It uses a connection of this type.
    Connection,
    /// It reads a resource of this type.
    Reader,
    /// It writes a resource of this type.
    Writer,
    /// It takes its parameters as a value of this type.
    Parameters,
}

/// The use that the name of a handle stands for.
pub open spec fn handle_of(name: Seq<char>) -> Option<Usage> {
    if name == "Connection"@ {
        Some(Usage::Connection)
    } else if name == "Reader"@ {
        Some(Usage::Reader)
    } else if name == "Writer"@ {
        Some(Usage::Writer)
    } else {
        None
    }
}

fn handle(name: &str) -> (usage: Option<Usage>)
    ensures
        usage == handle_of(name@),
{
    if same_text(name, "Connection") {
        Some(Usage::Connection)
    } else if same_text(name, "Reader") {
        Some(Usage::Reader)
    } else if same_text(name, "Writer") {
        Some(Usage::Writer)
    } else {
        None
    }
}

/// The use and the declared type of a handle, where a type is one, or what is wrong with
/// it.
pub open spec fn capability_of(ty: RustType) -> Result<Option<(Usage, Seq<char>)>, Seq<char>> {
    match ty {
        RustType::Path { name, arguments, .. } => match handle_of(name@) {
            None => Ok(None),
            Some(usage) => match arguments {
                TypeArguments::Angle { types, others } => if types@.len() + others != 1 {
                    Err("Capability handles require exactly one declared type argument."@)
                } else if types@.len() != 1 {
                    Err("Capability handles require one type argument."@)
                } else {
                    Ok(Some((usage, tokens_of(types@[0]))))
                },
                _ => Err("Capability handles require one declared type argument."@),
            },
        },
        _ => Ok(None),
    }
}

/// Returns the use and the declared type of a handle, where a type is one.
pub fn capability(ty: &RustType) -> (result: Result<Option<(Usage, String)>, String>)
    ensures
        match capability_of(*ty) {
            Err(words) => result matches Err(message) && message@ == words,
            Ok(None) => result == Ok::<Option<(Usage, String)>, String>(None),
            Ok(Some((usage, tokens))) => result matches Ok(Some((found, written))) && found == usage && written@
                == tokens,
        },
{
    let (name, arguments) = match ty {
        RustType::Path { name, arguments, .. } => (name, arguments),
        _ => return Ok(None),
    };
    let usage = match handle(name.as_str()) {
        Some(usage) => usage,
        None => return Ok(None),
    };
    match arguments {
        TypeArguments::Angle { types, others } => {
            if !((types.len() == 1 && *others == 0) || (types.len() == 0 && *others == 1)) {
                return Err("Capability handles require exactly one declared type argument.".to_owned());
            }
            if types.len() != 1 {
                return Err("Capability handles require one type argument.".to_owned());
            }
            Ok(Some((usage, type_tokens(&types[0]).to_owned())))
        },
        _ => Err("Capability handles require one declared type argument.".to_owned()),
    }
}

/// An argument in the signature of an action.
pub enum ActionInput {
    /// `self` in one of its forms.
    Receiver,
    /// An argument that is not a plain name.
    Pattern,
    /// A named argument of this type.
    Typed(RustType),
}

/// An argument of an action: what the action does with it, and its type.
pub struct ActionArgument {
    pub usage: Usage,
    pub tokens: String,
}

/// What several arguments are.
pub open spec fn argument_views(arguments: Seq<ActionArgument>) -> Seq<(Usage, Seq<char>)> {
    arguments.map_values(|argument: ActionArgument| (argument.usage, argument.tokens@))
}

/// One of the arguments is used so.
pub open spec fn uses(arguments: Seq<(Usage, Seq<char>)>, usage: Usage) -> bool {
    exists|index: int| 0 <= index < arguments.len() && (#[trigger] arguments[index]).0 == usage
}

/// What an argument makes of those before it, or what is wrong with it.
pub open spec fn argument_step(arguments: Seq<(Usage, Seq<char>)>, input: ActionInput) -> Result<
    Seq<(Usage, Seq<char>)>,
    Seq<char>,
> {
    match input {
        ActionInput::Receiver => Err("Actions cannot take a receiver; declare a free async function."@),
        ActionInput::Pattern => Err("Name each action argument; destructure owned parameters inside the function."@),
        ActionInput::Typed(ty) => match capability_of(ty) {
            Err(words) => Err(words),
            Ok(Some((usage, tokens))) => if arguments.contains((usage, tokens)) {
                Err(
                    "Repeated capability handles are invalid; use one reader, writer, or connection for each declared type."@,
                )
            } else {
                Ok(arguments.push((usage, tokens)))
            },
            Ok(None) => if ty is Borrowed {
                Err("Action parameters must be owned values."@)
            } else if uses(arguments, Usage::Parameters) {
                Err("An action accepts at most one owned parameters value."@)
            } else {
                Ok(arguments.push((Usage::Parameters, tokens_of(ty))))
            },
        },
    }
}

/// The arguments of the first `end` inputs, or what is wrong with the first that is wrong.
pub open spec fn arguments_before(inputs: Seq<ActionInput>, end: int) -> Result<Seq<(Usage, Seq<char>)>, Seq<char>>
    decreases end,
{
    if end <= 0 {
        Ok(Seq::empty())
    } else {
        match arguments_before(inputs, end - 1) {
            Err(words) => Err(words),
            Ok(arguments) => argument_step(arguments, inputs[end - 1]),
        }
    }
}

proof fn lemma_first_wrong_argument(inputs: Seq<ActionInput>, end: int, later: int)
    requires
        0 <= end <= later,
        arguments_before(inputs, end) is Err,
    ensures
        arguments_before(inputs, later) == arguments_before(inputs, end),
    decreases later - end,
{
    if end < later {
        lemma_first_wrong_argument(inputs, end, later - 1);
    }
}

/// The types of the first `end` arguments that are used so.
pub open spec fn used_types(arguments: Seq<(Usage, Seq<char>)>, usage: Usage, end: int) -> Seq<Seq<char>>
    decreases end,
{
    if end <= 0 {
        Seq::empty()
    } else {
        let earlier = used_types(arguments, usage, end - 1);
        if arguments[end - 1].0 == usage {
            earlier.push(arguments[end - 1].1)
        } else {
            earlier
        }
    }
}

/// The types of the connections of an action.
pub open spec fn connections_of(arguments: Seq<(Usage, Seq<char>)>) -> Seq<Seq<char>> {
    used_types(arguments, Usage::Connection, arguments.len() as int)
}

/// The arguments of an action, or what is wrong with them.
pub open spec fn arguments_of(inputs: Seq<ActionInput>) -> Result<Seq<(Usage, Seq<char>)>, Seq<char>> {
    match arguments_before(inputs, inputs.len() as int) {
        Err(words) => Err(words),
        Ok(arguments) => if uses(arguments, Usage::Reader) && uses(arguments, Usage::Parameters) {
            Err("Readers exclude owned parameters; remove the parameters argument."@)
        } else if uses(arguments, Usage::Writer) && connections_of(arguments).len() > 1 {
            Err("An action with a writer accepts at most one connection."@)
        } else {
            Ok(arguments)
        },
    }
}

fn is_used(arguments: &Vec<ActionArgument>, usage: Usage) -> (found: bool)
    ensures
        found == uses(argument_views(arguments@), usage),
{
    let ghost shown = argument_views(arguments@);
    let mut index: usize = 0;
    while index < arguments.len()
        invariant
            index <= arguments.len(),
            shown == argument_views(arguments@),
            forall|i: int| 0 <= i < index ==> (#[trigger] shown[i]).0 != usage,
        decreases arguments.len() - index,
    {
        assert(shown[index as int].0 == arguments@[index as int].usage);
        if arguments[index].usage == usage {
            return true;
        }
        index += 1;
    }
    false
}

fn has_argument(arguments: &Vec<ActionArgument>, usage: Usage, tokens: &str) -> (found: bool)
    ensures
        found == argument_views(arguments@).contains((usage, tokens@)),
{
    let ghost shown = argument_views(arguments@);
    let mut index: usize = 0;
    while index < arguments.len()
        invariant
            index <= arguments.len(),
            shown == argument_views(arguments@),
            forall|i: int| 0 <= i < index ==> shown[i] != (usage, tokens@),
        decreases arguments.len() - index,
    {
        assert(shown[index as int] == (arguments@[index as int].usage, arguments@[index as int].tokens@));
        if arguments[index].usage == usage && same_text(arguments[index].tokens.as_str(), tokens) {
            return true;
        }
        index += 1;
    }
    false
}

/// Collects the types of the arguments that are used so.
pub fn types_used(arguments: &Vec<ActionArgument>, usage: Usage) -> (types: Vec<String>)
    ensures
        texts(types@) == used_types(argument_views(arguments@), usage, arguments@.len() as int),
{
    let ghost shown = argument_views(arguments@);
    let mut types: Vec<String> = Vec::new();
    let mut index: usize = 0;
    assert(texts(types@) =~= Seq::empty());
    while index < arguments.len()
        invariant
            index <= arguments.len(),
            shown == argument_views(arguments@),
            texts(types@) == used_types(shown, usage, index as int),
        decreases arguments.len() - index,
    {
        assert(shown[index as int] == (arguments@[index as int].usage, arguments@[index as int].tokens@));
        if arguments[index].usage == usage {
            let ghost before = types@;
            types.push(arguments[index].tokens.clone());
            assert(texts(types@) =~= texts(before).push(arguments@[index as int].tokens@));
        }
        index += 1;
    }
    types
}

fn push_argument(arguments: &mut Vec<ActionArgument>, usage: Usage, tokens: String)
    ensures
        argument_views(final(arguments)@) == argument_views(old(arguments)@).push((usage, tokens@)),
{
    let ghost before = arguments@;
    arguments.push(ActionArgument { usage, tokens });
    assert(argument_views(arguments@) =~= argument_views(before).push((usage, tokens@)));
}

/// Reads the arguments of an action.
pub fn action_arguments(inputs: &Vec<ActionInput>) -> (result: Result<Vec<ActionArgument>, String>)
    ensures
        match arguments_of(inputs@) {
            Ok(expected) => result matches Ok(arguments) && argument_views(arguments@) == expected,
            Err(words) => result matches Err(message) && message@ == words,
        },
{
    let mut arguments: Vec<ActionArgument> = Vec::new();
    let mut index: usize = 0;
    assert(argument_views(arguments@) =~= Seq::empty());
    while index < inputs.len()
        invariant
            index <= inputs.len(),
            arguments_before(inputs@, index as int) == Ok::<_, Seq<char>>(argument_views(arguments@)),
        decreases inputs.len() - index,
    {
        proof {
            if arguments_before(inputs@, index + 1) is Err {
                lemma_first_wrong_argument(inputs@, index + 1, inputs@.len() as int);
            }
        }
        let ty = match &inputs[index] {
            ActionInput::Receiver => return Err(
                "Actions cannot take a receiver; declare a free async function.".to_owned(),
            ),
            ActionInput::Pattern => return Err(
                "Name each action argument; destructure owned parameters inside the function.".to_owned(),
            ),
            ActionInput::Typed(ty) => ty,
        };
        match capability(ty) {
            Err(message) => return Err(message),
            Ok(Some((usage, tokens))) => {
                if has_argument(&arguments, usage, tokens.as_str()) {
                    return Err(
                        "Repeated capability handles are invalid; use one reader, writer, or connection for each declared type.".to_owned(),
                    );
                }
                push_argument(&mut arguments, usage, tokens);
            },
            Ok(None) => {
                if let RustType::Borrowed(_) = ty {
                    return Err("Action parameters must be owned values.".to_owned());
                }
                if is_used(&arguments, Usage::Parameters) {
                    return Err("An action accepts at most one owned parameters value.".to_owned());
                }
                push_argument(&mut arguments, Usage::Parameters, type_tokens(ty).to_owned());
            },
        }
        index += 1;
    }
    if is_used(&arguments, Usage::Reader) && is_used(&arguments, Usage::Parameters) {
        return Err("Readers exclude owned parameters; remove the parameters argument.".to_owned());
    }
    let connections = types_used(&arguments, Usage::Connection);
    assert(texts(connections@).len() == connections@.len());
    if is_used(&arguments, Usage::Writer) && connections.len() > 1 {
        return Err("An action with a writer accepts at most one connection.".to_owned());
    }
    Ok(arguments)
}

/// No declared type is used twice in one way, and parameters come at most once.
pub proof fn law_arguments_are_distinct(inputs: Seq<ActionInput>, end: int)
    requires
        0 <= end <= inputs.len(),
    ensures
        arguments_before(inputs, end) matches Ok(arguments) ==> {
            &&& arguments.no_duplicates()
            &&& forall|i: int, j: int|
                0 <= i < j < arguments.len() && arguments[i].0 == Usage::Parameters ==> arguments[j].0
                    != Usage::Parameters
        },
    decreases end,
{
    if end > 0 {
        law_arguments_are_distinct(inputs, end - 1);
        if let Ok(arguments) = arguments_before(inputs, end - 1) {
            if let Ok(next) = argument_step(arguments, inputs[end - 1]) {
                let added = next.last();
                assert(next == arguments.push(added));
                if added.0 == Usage::Parameters {
                    assert forall|i: int| 0 <= i < arguments.len() implies (#[trigger] arguments[i]).0
                        != Usage::Parameters by {
                        assert(!uses(arguments, Usage::Parameters));
                    }
                }
                assert(!arguments.contains(added));
            }
        }
    }
}

/// The path of the SDK that the entries from `index` on give, behind `path`.
pub open spec fn sdk_from(path: Option<Seq<char>>, metas: Seq<Meta>, index: int) -> Result<Option<Seq<char>>, Seq<char>>
    decreases metas.len() - index,
{
    if index < 0 || index >= metas.len() {
        Ok(path)
    } else if !(metas[index].name matches Some(name) && name@ == "crate"@) {
        Err("The action name is derived from its function; only `crate = \"path\"` is supported."@)
    } else if path is Some {
        Err(repeated_words("crate"@))
    } else {
        match path_value(metas[index].value) {
            Err(words) => Err(words),
            Ok(found) => sdk_from(Some(found), metas, index + 1),
        }
    }
}

/// Reads the path of the SDK from what stands in the brackets of `#[action(..)]`.
pub fn sdk_path(metas: &Vec<Meta>) -> (result: Result<Option<String>, String>)
    ensures
        match sdk_from(None, metas@, 0) {
            Ok(expected) => result matches Ok(path) && text_of_option(path) == expected,
            Err(words) => result matches Err(message) && message@ == words,
        },
{
    let ghost outcome = sdk_from(None, metas@, 0);
    let mut path: Option<String> = None;
    let mut index: usize = 0;
    while index < metas.len()
        invariant
            index <= metas.len(),
            outcome == sdk_from(None, metas@, 0),
            outcome == sdk_from(text_of_option(path), metas@, index as int),
        decreases metas.len() - index,
    {
        let named = match &metas[index].name {
            Some(name) => same_text(name.as_str(), "crate"),
            None => false,
        };
        if !named {
            return Err(
                "The action name is derived from its function; only `crate = \"path\"` is supported.".to_owned(),
            );
        }
        if path.is_some() {
            return Err(repeated("crate"));
        }
        match meta_path(&metas[index].value) {
            Ok(found) => {
                path = Some(found);
            },
            Err(message) => return Err(message),
        }
        index += 1;
    }
    Ok(path)
}

/// A function that is declared as an action.
pub struct ActionItem {
    /// The name of the function, without a mark that it is raw.
    pub name: String,
    pub asynchronous: bool,
    /// It is safe and of the Rust convention, without generic or variadic parameters.
    pub plain: bool,
    pub attributes: Vec<Attribute>,
    pub inputs: Vec<ActionInput>,
}

/// What an action declares.
pub struct ActionPlan {
    /// The name of the action in the manifest.
    pub name: String,
    /// The name of the module that holds its declaration.
    pub module: String,
    pub description: Option<String>,
    pub arguments: Vec<ActionArgument>,
    pub crate_path: Option<String>,
}

/// What is wrong with a function that is declared as an action, if anything.
pub open spec fn action_fault(item: ActionItem) -> Option<Seq<char>> {
    if !item.asynchronous {
        Some("An action must be `async fn` and return `sloper_extension::Result<()>`."@)
    } else if !item.plain {
        Some(
            "Actions must be concrete safe Rust async functions without generic parameters or variadic arguments."@,
        )
    } else if !is_manifest_key(replaced(item.name@, "_"@, "-"@)) {
        Some("Manifest keys must use kebab-case and fit 64 characters."@)
    } else {
        match arguments_of(item.inputs@) {
            Err(words) => Some(words),
            Ok(_) => match description_of(item.attributes@) {
                Err(words) => Some(words),
                Ok(_) => None,
            },
        }
    }
}

/// Declares an action. `metas` is what stands in the brackets of `#[action(..)]`, and
/// `item` the function, or the words for why it is none.
pub fn action(metas: &Vec<Meta>, item: Result<ActionItem, String>) -> (result: Result<ActionPlan, String>)
    ensures
        match sdk_from(None, metas@, 0) {
            Err(words) => result matches Err(message) && message@ == words,
            Ok(path) => match item {
                Err(message) => result == Err::<ActionPlan, _>(message),
                Ok(item) => match action_fault(item) {
                    Some(words) => result matches Err(message) && message@ == words,
                    None => {
                        &&& result matches Ok(plan)
                        &&& plan.name@ == replaced(item.name@, "_"@, "-"@)
                        &&& plan.module@ == "__sloper_action_"@ + item.name@
                        &&& description_of(item.attributes@) == Ok::<_, Seq<char>>(text_of_option(plan.description))
                        &&& arguments_of(item.inputs@) == Ok::<_, Seq<char>>(argument_views(plan.arguments@))
                        &&& text_of_option(plan.crate_path) == path
                    },
                },
            },
        },
{
    let crate_path = match sdk_path(metas) {
        Ok(crate_path) => crate_path,
        Err(message) => return Err(message),
    };
    let item = match item {
        Ok(item) => item,
        Err(message) => return Err(message),
    };
    if !item.asynchronous {
        return Err("An action must be `async fn` and return `sloper_extension::Result<()>`.".to_owned());
    }
    if !item.plain {
        return Err(
            "Actions must be concrete safe Rust async functions without generic parameters or variadic arguments.".to_owned(),
        );
    }
    let name = replace_text(item.name.as_str(), "_", "-");
    match validate_key(name.as_str()) {
        Ok(_) => {},
        Err(message) => return Err(message),
    }
    let module = joined("__sloper_action_", item.name.as_str());
    let arguments = match action_arguments(&item.inputs) {
        Ok(arguments) => arguments,
        Err(message) => return Err(message),
    };
    let description = match documentation(&item.attributes) {
        Ok(description) => description,
        Err(message) => return Err(message),
    };
    Ok(ActionPlan { name, module, description, arguments, crate_path })
}

/// The path of an action in the list of an extension.
pub struct ActionPath {
    /// The path as it is written.
    pub tokens: String,
    /// What stands before its last segment.
    pub prefix: String,
    /// Its last segment, without a mark that it is raw.
    pub last: String,
    /// Its last segment has arguments.
    pub generic: bool,
}

/// What an entry of `extension!` is set to.
pub enum ExtensionValue {
    Text(String),
    /// A type as it is written.
    Type(String),
    Actions(Vec<ActionPath>),
    /// Something else, and the words for it.
    Other(String),
}

/// An entry of `extension!`.
pub struct ExtensionEntry {
    pub key: String,
    pub value: ExtensionValue,
}

/// What the entries of `extension!` say.
pub struct Extension<'a> {
    pub name: Option<String>,
    pub label: Option<String>,
    pub configuration: Option<String>,
    pub actions: Option<&'a Vec<ActionPath>>,
    pub crate_path: Option<String>,
}

/// What the entries of `extension!` say.
pub ghost struct ExtensionView {
    pub name: Option<Seq<char>>,
    pub label: Option<Seq<char>>,
    pub configuration: Option<Seq<char>>,
    pub actions: Option<Seq<ActionPath>>,
    pub crate_path: Option<Seq<char>>,
}

impl View for Extension<'_> {
    type V = ExtensionView;

    open spec fn view(&self) -> ExtensionView {
        ExtensionView {
            name: text_of_option(self.name),
            label: text_of_option(self.label),
            configuration: text_of_option(self.configuration),
            actions: match self.actions {
                Some(actions) => Some(actions@),
                None => None,
            },
            crate_path: text_of_option(self.crate_path),
        }
    }
}

/// Nothing said of an extension.
pub open spec fn no_extension() -> ExtensionView {
    ExtensionView { name: None, label: None, configuration: None, actions: None, crate_path: None }
}

/// The text that an entry is set to, or what is wrong with it.
pub open spec fn entry_text(value: ExtensionValue) -> Result<Seq<char>, Seq<char>> {
    match value {
        ExtensionValue::Text(text) => Ok(text@),
        ExtensionValue::Other(words) => Err(words@),
        _ => Err("expected string literal"@),
    }
}

fn read_text(value: &ExtensionValue) -> (result: Result<&str, String>)
    ensures
        match entry_text(*value) {
            Ok(expected) => result matches Ok(text) && text@ == expected,
            Err(words) => result matches Err(message) && message@ == words,
        },
{
    match value {
        ExtensionValue::Text(text) => Ok(text.as_str()),
        ExtensionValue::Other(words) => Err(words.clone()),
        _ => Err("expected string literal".to_owned()),
    }
}

/// What an entry makes of what was said before, or what is wrong with it.
pub open spec fn extension_step(said: ExtensionView, entry: ExtensionEntry) -> Result<ExtensionView, Seq<char>> {
    if entry.key@ == "name"@ {
        match entry_text(entry.value) {
            Err(words) => Err(words),
            Ok(text) => Ok(ExtensionView { name: Some(text), ..said }),
        }
    } else if entry.key@ == "label"@ {
        match entry_text(entry.value) {
            Err(words) => Err(words),
            Ok(text) => Ok(ExtensionView { label: Some(text), ..said }),
        }
    } else if entry.key@ == "configuration"@ {
        match entry.value {
            ExtensionValue::Type(tokens) => Ok(ExtensionView { configuration: Some(tokens@), ..said }),
            ExtensionValue::Other(words) => Err(words@),
            _ => Err("expected type"@),
        }
    } else if entry.key@ == "actions"@ {
        match entry.value {
            ExtensionValue::Actions(actions) => Ok(ExtensionView { actions: Some(actions@), ..said }),
            ExtensionValue::Other(words) => Err(words@),
            _ => Err("expected square brackets"@),
        }
    } else if entry.key@ == "crate"@ {
        match path_of(entry_text(entry.value), is_crate_path(entry_text(entry.value)->Ok_0)) {
            Err(words) => Err(words),
            Ok(path) => Ok(ExtensionView { crate_path: Some(path), ..said }),
        }
    } else {
        Err(
            "Supported extension fields are `name`, `label`, `configuration`, `actions`, and `crate`; Cargo supplies version and description."@,
        )
    }
}

/// What the entries from `index` on make of what was said before.
pub open spec fn extension_from(
    said: ExtensionView,
    names: Seq<Seq<char>>,
    entries: Seq<ExtensionEntry>,
    index: int,
) -> Result<ExtensionView, Seq<char>>
    decreases entries.len() - index,
{
    if index < 0 || index >= entries.len() {
        if said.name is None {
            Err("Declare `name: \"publisher.extension\"`."@)
        } else if said.actions is None {
            Err("Declare an explicit `actions: [run]` list."@)
        } else {
            Ok(said)
        }
    } else if names.contains(entries[index].key@) {
        Err(repeated_words(entries[index].key@))
    } else {
        match extension_step(said, entries[index]) {
            Err(words) => Err(words),
            Ok(next) => extension_from(next, names.push(entries[index].key@), entries, index + 1),
        }
    }
}

impl<'a> Extension<'a> {
    fn apply(&mut self, entry: &'a ExtensionEntry) -> (applied: Result<(), String>)
        ensures
            match extension_step(old(self)@, *entry) {
                Ok(expected) => applied == Ok::<(), String>(()) && final(self)@ == expected,
                Err(words) => applied matches Err(message) && message@ == words,
            },
    {
        let key = entry.key.as_str();
        if same_text(key, "name") {
            match read_text(&entry.value) {
                Ok(text) => {
                    self.name = Some(text.to_owned());
                },
                Err(message) => return Err(message),
            }
        } else if same_text(key, "label") {
            match read_text(&entry.value) {
                Ok(text) => {
                    self.label = Some(text.to_owned());
                },
                Err(message) => return Err(message),
            }
        } else if same_text(key, "configuration") {
            match &entry.value {
                ExtensionValue::Type(tokens) => {
                    self.configuration = Some(tokens.clone());
                },
                ExtensionValue::Other(words) => return Err(words.clone()),
                _ => return Err("expected type".to_owned()),
            }
        } else if same_text(key, "actions") {
            match &entry.value {
                ExtensionValue::Actions(actions) => {
                    self.actions = Some(actions);
                },
                ExtensionValue::Other(words) => return Err(words.clone()),
                _ => return Err("expected square brackets".to_owned()),
            }
        } else if same_text(key, "crate") {
            match read_text(&entry.value) {
                Ok(text) => match checked_path(text, crate_path(text)) {
                    Ok(path) => {
                        self.crate_path = Some(path);
                    },
                    Err(message) => return Err(message),
                },
                Err(message) => return Err(message),
            }
        } else {
            return Err(
                "Supported extension fields are `name`, `label`, `configuration`, `actions`, and `crate`; Cargo supplies version and description.".to_owned(),
            );
        }
        Ok(())
    }

    /// Reads the entries of `extension!`.
    pub fn parse(entries: &'a Vec<ExtensionEntry>) -> (result: Result<Extension<'a>, String>)
        ensures
            match extension_from(no_extension(), Seq::empty(), entries@, 0) {
                Ok(expected) => result matches Ok(result) && result@ == expected,
                Err(words) => result matches Err(message) && message@ == words,
            },
    {
        let ghost outcome = extension_from(no_extension(), Seq::empty(), entries@, 0);
        let mut said: Extension<'a> = Extension {
            name: None,
            label: None,
            configuration: None,
            actions: None,
            crate_path: None,
        };
        let mut names: Vec<String> = Vec::new();
        let mut index: usize = 0;
        assert(texts(names@) =~= Seq::empty());
        while index < entries.len()
            invariant
                index <= entries.len(),
                outcome == extension_from(no_extension(), Seq::empty(), entries@, 0),
                outcome == extension_from(said@, texts(names@), entries@, index as int),
            decreases entries.len() - index,
        {
            let key = &entries[index].key;
            if holds_text(&names, key.as_str()) {
                return Err(repeated(key.as_str()));
            }
            match said.apply(&entries[index]) {
                Ok(_) => {},
                Err(message) => return Err(message),
            }
            let ghost before = names@;
            names.push(key.clone());
            assert(texts(names@) =~= texts(before).push(key@));
            index += 1;
        }
        if said.name.is_none() {
            return Err("Declare `name: \"publisher.extension\"`.".to_owned());
        }
        if said.actions.is_none() {
            return Err("Declare an explicit `actions: [run]` list.".to_owned());
        }
        Ok(said)
    }
}

/// The name of an extension in its declaration: two or more keys between dots, in at most
/// 128 bytes.
pub open spec fn is_declared_name(name: Seq<char>) -> bool {
    byte_count(name) <= 128 && pieces(name, '.').len() >= 2
}

/// What is wrong with the name of an extension, if anything.
pub open spec fn name_fault(name: Seq<char>) -> Option<Seq<char>> {
    if !is_declared_name(name) {
        Some(
            "Extension names require a publisher namespace and dotted kebab-case labels, at most 128 characters."@,
        )
    } else if exists|index: int|
        0 <= index < pieces(name, '.').len() && !is_manifest_key(#[trigger] pieces(name, '.')[index]) {
        Some("Manifest keys must use kebab-case and fit 64 characters."@)
    } else {
        None
    }
}

fn check_name(name: &str) -> (valid: Result<(), String>)
    ensures
        match name_fault(name@) {
            None => valid == Ok::<(), String>(()),
            Some(words) => valid matches Err(message) && message@ == words,
        },
{
    let labels = split_text(name, '.');
    let ghost expected = pieces(name@, '.');
    assert(labels@.map_values(|part: String| part@).len() == labels@.len());
    if byte_len(name) > 128 || labels.len() < 2 {
        return Err(
            "Extension names require a publisher namespace and dotted kebab-case labels, at most 128 characters.".to_owned(),
        );
    }
    let mut index: usize = 0;
    while index < labels.len()
        invariant
            index <= labels.len(),
            is_declared_name(name@),
            expected == pieces(name@, '.'),
            labels@.map_values(|part: String| part@) == expected,
            labels@.len() == expected.len(),
            forall|i: int| 0 <= i < index ==> is_manifest_key(#[trigger] expected[i]),
        decreases labels.len() - index,
    {
        assert(expected[index as int] == labels@[index as int]@);
        match validate_key(labels[index].as_str()) {
            Ok(_) => {},
            Err(message) => return Err(message),
        }
        index += 1;
    }
    Ok(())
}

/// Where the declaration of an action stands.
pub open spec fn module_of(path: ActionPath) -> Seq<char> {
    path.prefix@ + "__sloper_action_"@ + path.last@
}

/// An action before `index` is written like the one at `index`.
pub open spec fn repeats(actions: Seq<ActionPath>, index: int) -> bool {
    exists|earlier: int| 0 <= earlier < index && (#[trigger] actions[earlier]).tokens@ == actions[index].tokens@
}

/// What is wrong with the actions before `end`, if anything.
pub open spec fn actions_fault(actions: Seq<ActionPath>, end: int) -> Option<Seq<char>>
    decreases end,
{
    if end <= 0 {
        None
    } else {
        match actions_fault(actions, end - 1) {
            Some(words) => Some(words),
            None => if repeats(actions, end - 1) {
                Some("Action paths cannot repeat in the explicit list."@)
            } else if actions[end - 1].generic {
                Some("Actions cannot take generic arguments."@)
            } else {
                None
            },
        }
    }
}

proof fn lemma_first_wrong_action(actions: Seq<ActionPath>, end: int, later: int)
    requires
        0 <= end <= later,
        actions_fault(actions, end) is Some,
    ensures
        actions_fault(actions, later) == actions_fault(actions, end),
    decreases later - end,
{
    if end < later {
        lemma_first_wrong_action(actions, end, later - 1);
    }
}

/// What is wrong with an extension of which this was said, if anything.
pub open spec fn extension_fault(said: ExtensionView) -> Option<Seq<char>> {
    let actions = said.actions->Some_0;
    match name_fault(said.name->Some_0) {
        Some(words) => Some(words),
        None => if said.label matches Some(label) && !is_display(label, 60) {
            Some(display_words(60))
        } else if !(0 < actions.len() <= 64) {
            Some("Declare between one and 64 explicit actions."@)
        } else {
            actions_fault(actions, actions.len() as int)
        },
    }
}

/// What an extension declares.
pub struct ExtensionPlan {
    pub name: String,
    pub label: Option<String>,
    /// The type of the configuration, as it is written.
    pub configuration: Option<String>,
    /// Where the declarations of the actions stand, in the order of the list.
    pub modules: Vec<String>,
    pub crate_path: Option<String>,
}

fn check_action(actions: &Vec<ActionPath>, index: usize) -> (valid: Result<(), String>)
    requires
        index < actions@.len(),
    ensures
        if repeats(actions@, index as int) {
            valid matches Err(message) && message@ == "Action paths cannot repeat in the explicit list."@
        } else if actions@[index as int].generic {
            valid matches Err(message) && message@ == "Actions cannot take generic arguments."@
        } else {
            valid == Ok::<(), String>(())
        },
{
    let mut earlier: usize = 0;
    while earlier < index
        invariant
            earlier <= index < actions@.len(),
            forall|i: int| 0 <= i < earlier ==> (#[trigger] actions@[i]).tokens@ != actions@[index as int].tokens@,
        decreases index - earlier,
    {
        if same_text(actions[earlier].tokens.as_str(), actions[index].tokens.as_str()) {
            return Err("Action paths cannot repeat in the explicit list.".to_owned());
        }
        earlier += 1;
    }
    if actions[index].generic {
        return Err("Actions cannot take generic arguments.".to_owned());
    }
    Ok(())
}

/// Declares an extension and its complete list of actions.
pub fn extension(entries: &Vec<ExtensionEntry>) -> (result: Result<ExtensionPlan, String>)
    ensures
        match extension_from(no_extension(), Seq::empty(), entries@, 0) {
            Err(words) => result matches Err(message) && message@ == words,
            Ok(said) => match extension_fault(said) {
                Some(words) => result matches Err(message) && message@ == words,
                None => {
                    &&& result matches Ok(plan)
                    &&& said.name == Some(plan.name@)
                    &&& text_of_option(plan.label) == said.label
                    &&& text_of_option(plan.configuration) == said.configuration
                    &&& texts(plan.modules@) == said.actions->Some_0.map_values(|path: ActionPath| module_of(path))
                    &&& text_of_option(plan.crate_path) == said.crate_path
                },
            },
        },
{
    let said = match Extension::parse(entries) {
        Ok(said) => said,
        Err(message) => return Err(message),
    };
    let ghost view = said@;
    proof {
        lemma_parsed(no_extension(), Seq::empty(), entries@, 0);
    }
    let (name, actions) = match (said.name, said.actions) {
        (Some(name), Some(actions)) => (name, actions),
        _ => return vstd::pervasive::unreached(),
    };
    match check_name(name.as_str()) {
        Ok(_) => {},
        Err(message) => return Err(message),
    }
    if let Some(label) = &said.label {
        match validate_text(label.as_str(), 60) {
            Ok(_) => {},
            Err(message) => return Err(message),
        }
    }
    if actions.len() == 0 || actions.len() > 64 {
        return Err("Declare between one and 64 explicit actions.".to_owned());
    }
    let ghost expected = actions@.map_values(|path: ActionPath| module_of(path));
    let mut modules: Vec<String> = Vec::new();
    let mut index: usize = 0;
    assert(texts(modules@) =~= expected.take(0));
    while index < actions.len()
        invariant
            index <= actions.len(),
            expected == actions@.map_values(|path: ActionPath| module_of(path)),
            texts(modules@) == expected.take(index as int),
            actions_fault(actions@, index as int) is None,
            extension_from(no_extension(), Seq::empty(), entries@, 0) == Ok::<_, Seq<char>>(view),
            view.actions == Some(actions@),
            extension_fault(view) == actions_fault(actions@, actions@.len() as int),
        decreases actions.len() - index,
    {
        match check_action(actions, index) {
            Ok(_) => {},
            Err(message) => {
                proof {
                    lemma_first_wrong_action(actions@, index + 1, actions@.len() as int);
                }
                return Err(message);
            },
        }
        let path = &actions[index];
        let ghost before = modules@;
        modules.push(joined(joined(path.prefix.as_str(), "__sloper_action_").as_str(), path.last.as_str()));
        proof {
            assert(texts(modules@) =~= texts(before).push(module_of(*path)));
            assert(expected.take(index + 1) =~= expected.take(index as int).push(expected[index as int]));
        }
        index += 1;
    }
    assert(expected.take(expected.len() as int) =~= expected);
    Ok(
        ExtensionPlan {
            name,
            label: said.label,
            configuration: said.configuration,
            modules,
            crate_path: said.crate_path,
        },
    )
}

proof fn lemma_parsed(said: ExtensionView, names: Seq<Seq<char>>, entries: Seq<ExtensionEntry>, index: int)
    ensures
        extension_from(said, names, entries, index) matches Ok(parsed) ==> parsed.name is Some && parsed.actions is Some,
    decreases entries.len() - index,
{
    if 0 <= index < entries.len() && !names.contains(entries[index].key@) {
        if let Ok(next) = extension_step(said, entries[index]) {
            lemma_parsed(next, names.push(entries[index].key@), entries, index + 1);
        }
    }
}

/// The name of a declared extension is one that releases can carry.
pub proof fn law_declared_names_are_extension_names(name: Seq<char>)
    requires
        name_fault(name) is None,
    ensures
        is_extension_name(name),
{
    assert forall|index: int| 0 <= index < pieces(name, '.').len() implies is_label(
        #[trigger] pieces(name, '.')[index],
    ) by {
        assert(is_manifest_key(pieces(name, '.')[index]));
    }
}

/// A scope that can be asked for: a text that can be shown, of one through 512 characters
/// without white space.
pub open spec fn is_scope(literal: Literal) -> bool {
    &&& literal is Text
    &&& is_display(literal->Text_0@, 512)
    &&& literal->Text_0@.len() > 0
    &&& forall|i: int| 0 <= i < literal->Text_0@.len() ==> !whitespace(#[trigger] literal->Text_0@[i])
}

proof fn lemma_scopes(scopes: Seq<Literal>, end: int)
    requires
        0 <= end <= scopes.len(),
    ensures
        scopes_before(scopes, end) matches Ok(values) ==> {
            &&& values.len() == end
            &&& forall|i: int|
                0 <= i < end ==> is_scope(#[trigger] scopes[i]) && values[i] == scopes[i]->Text_0@
            &&& forall|i: int, j: int|
                0 <= i < j < end ==> (#[trigger] scopes[i])->Text_0@ != (#[trigger] scopes[j])->Text_0@
        },
        scopes_before(scopes, end) is Err ==> {
            ||| exists|i: int| 0 <= i < end && !is_scope(#[trigger] scopes[i])
            ||| exists|i: int, j: int|
                0 <= i < j < end && (#[trigger] scopes[i])->Text_0@ == (#[trigger] scopes[j])->Text_0@
        },
    decreases end,
{
    if end > 0 {
        lemma_scopes(scopes, end - 1);
        if let Ok(values) = scopes_before(scopes, end - 1) {
            let scope = scopes[end - 1];
            if is_scope(scope) {
                let text = scope->Text_0@;
                if values.contains(text) {
                    let i = choose|i: int| 0 <= i < values.len() && values[i] == text;
                    assert(scopes[i]->Text_0@ == text);
                } else {
                    assert forall|i: int| 0 <= i < end - 1 implies (#[trigger] scopes[i])->Text_0@ != text by {
                        assert(values[i] == scopes[i]->Text_0@);
                    }
                }
            }
        }
    }
}

/// The scopes of a connection are accepted exactly where there are one through 32 of them,
/// each can be asked for and no two are the same; they are kept in their order.
pub proof fn law_scopes(scopes: Seq<Literal>)
    ensures
        scopes_of(scopes) is Ok <==> {
            &&& 1 <= scopes.len() <= 32
            &&& forall|i: int| 0 <= i < scopes.len() ==> is_scope(#[trigger] scopes[i])
            &&& forall|i: int, j: int|
                0 <= i < j < scopes.len() ==> (#[trigger] scopes[i])->Text_0@ != (#[trigger] scopes[j])->Text_0@
        },
        scopes_of(scopes) matches Ok(values) ==> values.len() == scopes.len() && forall|i: int|
            0 <= i < scopes.len() ==> #[trigger] values[i] == scopes[i]->Text_0@,
{
    lemma_scopes(scopes, scopes.len() as int);
}

/// A written connection tells its kind, its name, its profile and each of its scopes, and
/// nothing else.
pub proof fn law_connections_are_told(name: Seq<char>, profile: Seq<char>, scopes: Seq<Seq<char>>)
    ensures
        ({
            let value = connection_value(name, profile, scopes);
            &&& value is Object && value->Object_0.len() == 4
            &&& member(value, "kind"@) == Some(JsonValue::Text("connection"@))
            &&& member(value, "name"@) == Some(JsonValue::Text(name))
            &&& member(value, "profile"@) == Some(JsonValue::Text(profile))
            &&& member(value, "scopes"@) matches Some(JsonValue::Array(written))
            &&& written.len() == scopes.len()
            &&& forall|i: int| 0 <= i < scopes.len() ==> #[trigger] written[i] == JsonValue::Text(scopes[i])
        }),
{
    reveal_strlit("kind");
    reveal_strlit("name");
    reveal_strlit("profile");
    reveal_strlit("scopes");
    assert("kind"@[0] != "name"@[0]);
    assert("profile"@.len() == 7 && "scopes"@.len() == 6 && "name"@.len() == 4 && "kind"@.len() == 4);
    let members = connection_value(name, profile, scopes)->Object_0;
    reveal_with_fuel(lookup, 5);
    assert(members.drop_first()[0] == members[1]);
    assert(members.drop_first().drop_first()[0] == members[2]);
    assert(members.drop_first().drop_first().drop_first()[0] == members[3]);
}

/// The entry is named `key`.
pub open spec fn is_entry(entry: EntryView, key: Seq<char>) -> bool {
    entry matches EntryView::Meta(meta) && (meta.name matches Some(name) && name@ == key)
}

/// What an entry of a connection says is in what was said.
pub open spec fn is_said(entry: EntryView, said: ConnectionView) -> bool {
    &&& entry is Meta
    &&& is_entry(entry, "name"@) ==> said.name is Some && text_value(entry->Meta_0.value) == Ok::<Seq<char>, Seq<char>>(
        said.name->0,
    )
    &&& is_entry(entry, "profile"@) ==> said.profile is Some && text_value(entry->Meta_0.value) == Ok::<
        Seq<char>,
        Seq<char>,
    >(said.profile->0)
    &&& is_entry(entry, "scopes"@) ==> said.scopes is Some && (entry->Meta_0.value matches MetaValue::Equals(
        Literal::Array(scopes),
    ) && scopes@ == said.scopes->0)
    &&& is_entry(entry, "crate"@) ==> said.crate_path is Some && path_value(entry->Meta_0.value) == Ok::<
        Seq<char>,
        Seq<char>,
    >(said.crate_path->0)
    &&& is_entry(entry, "name"@) || is_entry(entry, "profile"@) || is_entry(entry, "scopes"@) || is_entry(
        entry,
        "crate"@,
    )
}

proof fn lemma_words_of_connections()
    ensures
        "name"@ != "profile"@ && "name"@ != "scopes"@ && "name"@ != "crate"@ && "profile"@ != "scopes"@ && "profile"@
            != "crate"@ && "scopes"@ != "crate"@,
{
    reveal_strlit("name");
    reveal_strlit("profile");
    reveal_strlit("scopes");
    reveal_strlit("crate");
    assert("name"@.len() == 4 && "profile"@.len() == 7 && "scopes"@.len() == 6 && "crate"@.len() == 5);
}

/// What was said before and is not said again stays.
proof fn lemma_connection_stays(said: ConnectionView, names: Seq<Seq<char>>, entries: Seq<EntryView>, index: int)
    requires
        0 <= index,
    ensures
        connection_from(said, names, entries, index) matches Ok(result) ==> {
            &&& names.contains("name"@) ==> result.name == said.name
            &&& names.contains("profile"@) ==> result.profile == said.profile
            &&& names.contains("scopes"@) ==> result.scopes == said.scopes
            &&& names.contains("crate"@) ==> result.crate_path == said.crate_path
        },
    decreases entries.len() - index,
{
    lemma_words_of_connections();
    if index < entries.len() && connection_from(said, names, entries, index) is Ok {
        let key = entries[index]->Meta_0.name->Some_0@;
        let next = connection_step(said, key, entries[index]->Meta_0.value)->Ok_0;
        let later = names.push(key);
        lemma_connection_stays(next, later, entries, index + 1);
        assert forall|name: Seq<char>| #[trigger] names.contains(name) implies later.contains(name) by {
            let at = choose|at: int| 0 <= at < names.len() && names[at] == name;
            assert(later[at] == name);
        }
    }
}

/// What each entry of a connection says is kept, and nothing is said that no entry says.
pub proof fn law_connection_entries_are_kept(
    said: ConnectionView,
    names: Seq<Seq<char>>,
    entries: Seq<EntryView>,
    index: int,
)
    requires
        0 <= index,
    ensures
        connection_from(said, names, entries, index) matches Ok(result) ==> {
            &&& forall|i: int| index <= i < entries.len() ==> is_said(#[trigger] entries[i], result)
            &&& result.name != said.name ==> exists|i: int|
                index <= i < entries.len() && is_entry(#[trigger] entries[i], "name"@)
            &&& result.profile != said.profile ==> exists|i: int|
                index <= i < entries.len() && is_entry(#[trigger] entries[i], "profile"@)
            &&& result.scopes != said.scopes ==> exists|i: int|
                index <= i < entries.len() && is_entry(#[trigger] entries[i], "scopes"@)
            &&& result.crate_path != said.crate_path ==> exists|i: int|
                index <= i < entries.len() && is_entry(#[trigger] entries[i], "crate"@)
        },
    decreases entries.len() - index,
{
    lemma_words_of_connections();
    if index < entries.len() && connection_from(said, names, entries, index) is Ok {
        let key = entries[index]->Meta_0.name->Some_0@;
        let next = connection_step(said, key, entries[index]->Meta_0.value)->Ok_0;
        let later = names.push(key);
        law_connection_entries_are_kept(next, later, entries, index + 1);
        lemma_connection_stays(next, later, entries, index + 1);
        assert(later.last() == key);
        assert(later.contains(key));
        assert(is_entry(entries[index], key));
    }
}

/// A declared connection has a key for its name, a profile that can be shown, and scopes
/// that are accepted; a unit type of which all this is said is accepted.
pub proof fn law_connections_are_accepted(declaration: Declaration)
    ensures
        ({
            let entries = entries_of(declaration.attributes@, "connection"@, declaration.attributes@.len() as int);
            let read = connection_from(no_connection(), Seq::empty(), entries, 0);
            let said = read->Ok_0;
            &&& connection_of(declaration) is Ok <==> {
                &&& !declaration.generic && declaration.data is Unit
                &&& read is Ok
                &&& said.name is Some && is_manifest_key(said.name->0)
                &&& said.profile is Some && is_display(said.profile->0, 128) && said.profile->0.len() > 0
                &&& said.scopes is Some && scopes_of(said.scopes->0) is Ok
            }
            &&& connection_of(declaration) matches Ok(parts) ==> parts.0 == said.name->0 && parts.1 == said.profile->0
                && scopes_of(said.scopes->0) == Ok::<Seq<Seq<char>>, Seq<char>>(parts.2) && parts.3 == said.crate_path
        }),
{
}

/// Each attribute that documents a declaration adds one line, without the white space
/// around it, and no other attribute adds any.
pub proof fn law_documented_lines(attributes: Seq<Attribute>, end: int)
    requires
        0 <= end < attributes.len(),
    ensures
        ({
            let before = doc_lines(attributes, end);
            let after = doc_lines(attributes, end + 1);
            let documents = is_named(attributes[end], "doc"@) && attributes[end].contents is Text;
            &&& documents ==> after.len() == before.len() + 1 && after.drop_last() == before && after.last() == trimmed(
                attributes[end].contents->Text_0@,
            )
            &&& !documents ==> after == before
        }),
        doc_lines(attributes, 0).len() == 0,
{
    let before = doc_lines(attributes, end);
    if let Contents::Text(text) = attributes[end].contents {
        assert(before.push(trimmed(text@)).drop_last() =~= before);
    }
}

/// A documented declaration is described by its lines with a space between them, where
/// that is at most 200 characters that can be shown; one without lines is not described.
pub proof fn law_descriptions(attributes: Seq<Attribute>)
    ensures
        ({
            let lines = doc_lines(attributes, attributes.len() as int);
            let words = joined_by(lines, seq![' ']);
            &&& lines.len() == 0 ==> description_of(attributes) == Ok::<Option<Seq<char>>, Seq<char>>(None)
            &&& lines.len() > 0 && is_display(words, 200) ==> description_of(attributes) == Ok::<
                Option<Seq<char>>,
                Seq<char>,
            >(Some(words))
            &&& lines.len() > 0 && !is_display(words, 200) ==> description_of(attributes) is Err
        }),
{
    reveal_strlit(" ");
    assert(" "@ =~= seq![' ']);
}

/// A type is a handle where its last segment is that of a handle, and its one argument is
/// the declared type.
pub proof fn law_handles(ty: RustType, usage: Usage, tokens: Seq<char>)
    ensures
        capability_of(ty) == Ok::<Option<(Usage, Seq<char>)>, Seq<char>>(Some((usage, tokens))) <==> {
            &&& ty is Path
            &&& match usage {
                Usage::Connection => ty->Path_name@ == "Connection"@,
                Usage::Reader => ty->Path_name@ == "Reader"@,
                Usage::Writer => ty->Path_name@ == "Writer"@,
                Usage::Parameters => false,
            }
            &&& ty->Path_arguments is Angle
            &&& ty->Path_arguments->types@.len() == 1 && ty->Path_arguments->others == 0
            &&& tokens == tokens_of(ty->Path_arguments->types@[0])
        },
        capability_of(ty) == Ok::<Option<(Usage, Seq<char>)>, Seq<char>>(None) <==> !(ty is Path && (ty->Path_name@
            == "Connection"@ || ty->Path_name@ == "Reader"@ || ty->Path_name@ == "Writer"@)),
{
    reveal_strlit("Connection");
    reveal_strlit("Reader");
    reveal_strlit("Writer");
    assert("Connection"@.len() == 10 && "Reader"@.len() == 6 && "Writer"@.len() == 6);
    assert("Reader"@[0] != "Writer"@[0]);
}

/// What an action takes for an input: a handle, or its parameters as an owned value.
pub open spec fn takes(input: ActionInput, argument: (Usage, Seq<char>)) -> bool {
    &&& input matches ActionInput::Typed(ty)
    &&& match capability_of(ty) {
        Ok(Some(handle)) => argument == handle,
        Ok(None) => !(ty is Borrowed) && argument == (Usage::Parameters, tokens_of(ty)),
        Err(_) => false,
    }
}

/// Arguments of an action that do not stand in each other's way.
pub open spec fn are_arguments(inputs: Seq<ActionInput>, arguments: Seq<(Usage, Seq<char>)>) -> bool {
    &&& arguments.len() == inputs.len()
    &&& forall|i: int| 0 <= i < inputs.len() ==> takes(#[trigger] inputs[i], arguments[i])
    &&& forall|i: int, j: int| 0 <= i < j < arguments.len() ==> #[trigger] arguments[i] != #[trigger] arguments[j]
    &&& forall|i: int, j: int|
        0 <= i < j < arguments.len() ==> !((#[trigger] arguments[i]).0 == Usage::Parameters && (
        #[trigger] arguments[j]).0 == Usage::Parameters)
}

proof fn lemma_arguments(inputs: Seq<ActionInput>, arguments: Seq<(Usage, Seq<char>)>, end: int)
    requires
        0 <= end <= inputs.len(),
        arguments.len() >= end,
    ensures
        arguments_before(inputs, end) matches Ok(found) ==> are_arguments(inputs.take(end), found),
        are_arguments(inputs.take(end), arguments.take(end)) ==> arguments_before(inputs, end) == Ok::<
            Seq<(Usage, Seq<char>)>,
            Seq<char>,
        >(arguments.take(end)),
    decreases end,
{
    let given = inputs.take(end);
    if end > 0 {
        let earlier = inputs.take(end - 1);
        lemma_arguments(inputs, arguments, end - 1);
        assert forall|i: int| 0 <= i < end - 1 implies #[trigger] given[i] == earlier[i] by {}
        law_arguments_are_distinct(inputs, end);
        if let Ok(found) = arguments_before(inputs, end - 1) {
            if let Ok(next) = argument_step(found, inputs[end - 1]) {
                assert(next.drop_last() =~= found);
                assert forall|i: int| 0 <= i < end implies takes(#[trigger] given[i], next[i]) by {
                    if i < end - 1 {
                        assert(takes(earlier[i], found[i]));
                    }
                }
            }
        }
        let own = arguments.take(end);
        if are_arguments(given, own) {
            let before = arguments.take(end - 1);
            assert forall|i: int| 0 <= i < end - 1 implies #[trigger] before[i] == own[i] by {}
            assert forall|i: int| 0 <= i < end - 1 implies takes(#[trigger] earlier[i], before[i]) by {
                assert(takes(given[i], own[i]));
            }
            assert(are_arguments(earlier, before));
            assert(takes(given[end - 1], own[end - 1]));
            assert(before.push(own[end - 1]) =~= own);
            assert(!before.contains(own[end - 1])) by {
                if before.contains(own[end - 1]) {
                    let at = choose|at: int| 0 <= at < before.len() && before[at] == own[end - 1];
                    assert(own[at] != own[end - 1]);
                }
            }
            if own[end - 1].0 == Usage::Parameters {
                assert(!uses(before, Usage::Parameters)) by {
                    if uses(before, Usage::Parameters) {
                        let at = choose|at: int| 0 <= at < before.len() && (#[trigger] before[at]).0 == Usage::Parameters;
                        assert(own[at].0 == Usage::Parameters);
                    }
                }
            }
            assert(argument_step(before, inputs[end - 1]) == Ok::<Seq<(Usage, Seq<char>)>, Seq<char>>(own)) by {
                if let ActionInput::Typed(ty) = inputs[end - 1] {
                    law_handles(ty, Usage::Parameters, tokens_of(ty));
                }
            }
        }
    } else {
        assert(arguments.take(0) =~= Seq::empty());
    }
}

/// An action is declared with exactly the arguments it takes: each input is a handle or the
/// parameters as an owned value, no two are the same, parameters come once at most and not
/// beside a reader, and a writer has at most one connection beside it.
pub proof fn law_arguments_are_taken(inputs: Seq<ActionInput>, arguments: Seq<(Usage, Seq<char>)>)
    requires
        arguments.len() == inputs.len(),
    ensures
        arguments_of(inputs) == Ok::<Seq<(Usage, Seq<char>)>, Seq<char>>(arguments) <==> {
            &&& are_arguments(inputs, arguments)
            &&& !(uses(arguments, Usage::Reader) && uses(arguments, Usage::Parameters))
            &&& !(uses(arguments, Usage::Writer) && connections_of(arguments).len() > 1)
        },
        arguments_of(inputs) matches Ok(found) ==> found.len() == inputs.len(),
{
    lemma_arguments(inputs, arguments, inputs.len() as int);
    assert(inputs.take(inputs.len() as int) =~= inputs);
    assert(arguments.take(arguments.len() as int) =~= arguments);
}

/// The types that an action uses in one way are those of its arguments of that use, in
/// their order: each argument adds its own.
pub proof fn law_used_types(arguments: Seq<(Usage, Seq<char>)>, usage: Usage, end: int)
    requires
        0 <= end < arguments.len(),
    ensures
        ({
            let before = used_types(arguments, usage, end);
            let after = used_types(arguments, usage, end + 1);
            &&& arguments[end].0 == usage ==> after == before.push(arguments[end].1)
            &&& arguments[end].0 != usage ==> after == before
        }),
        used_types(arguments, usage, 0).len() == 0,
{
}

/// A function is declared as an action exactly where it is asynchronous and plain, its name
/// with hyphens for underscores is a key, its arguments are accepted and so is what
/// documents it.
pub proof fn law_actions_are_accepted(item: ActionItem)
    ensures
        action_fault(item) is None <==> {
            &&& item.asynchronous && item.plain
            &&& is_manifest_key(replaced(item.name@, seq!['_'], seq!['-']))
            &&& arguments_of(item.inputs@) is Ok
            &&& description_of(item.attributes@) is Ok
        },
{
    reveal_strlit("_");
    reveal_strlit("-");
    assert("_"@ =~= seq!['_']);
    assert("-"@ =~= seq!['-']);
}

/// The path of the SDK is given at most once, and nothing else may be given with it.
pub proof fn law_paths_of_actions(metas: Seq<Meta>)
    ensures
        metas.len() == 0 ==> sdk_from(None, metas, 0) == Ok::<Option<Seq<char>>, Seq<char>>(None),
        metas.len() == 1 ==> (sdk_from(None, metas, 0) matches Ok(path) ==> {
            &&& metas[0].name is Some && metas[0].name->0@ == "crate"@
            &&& path is Some
            &&& path_value(metas[0].value) == Ok::<Seq<char>, Seq<char>>(path->0)
        }),
        metas.len() == 1 && metas[0].name is Some && metas[0].name->0@ == "crate"@ ==> (sdk_from(None, metas, 0) is Ok
            <==> path_value(metas[0].value) is Ok),
        metas.len() > 1 ==> sdk_from(None, metas, 0) is Err,
{
    reveal_with_fuel(sdk_from, 3);
}

/// What an entry of `extension!` says is in what was said.
pub open spec fn is_told(entry: ExtensionEntry, said: ExtensionView) -> bool {
    let key = entry.key@;
    &&& key == "name"@ ==> entry.value is Text && said.name == Some(entry.value->Text_0@)
    &&& key == "label"@ ==> entry.value is Text && said.label == Some(entry.value->Text_0@)
    &&& key == "configuration"@ ==> entry.value is Type && said.configuration == Some(entry.value->Type_0@)
    &&& key == "actions"@ ==> entry.value is Actions && said.actions == Some(entry.value->Actions_0@)
    &&& key == "crate"@ ==> entry.value is Text && said.crate_path == Some(entry.value->Text_0@)
    &&& key == "name"@ || key == "label"@ || key == "configuration"@ || key == "actions"@ || key == "crate"@
}

proof fn lemma_words_of_extensions()
    ensures
        "name"@ != "label"@ && "name"@ != "configuration"@ && "name"@ != "actions"@ && "name"@ != "crate"@,
        "label"@ != "configuration"@ && "label"@ != "actions"@ && "label"@ != "crate"@,
        "configuration"@ != "actions"@ && "configuration"@ != "crate"@ && "actions"@ != "crate"@,
{
    reveal_strlit("name");
    reveal_strlit("label");
    reveal_strlit("configuration");
    reveal_strlit("actions");
    reveal_strlit("crate");
    assert("name"@.len() == 4 && "label"@.len() == 5 && "configuration"@.len() == 13 && "actions"@.len() == 7
        && "crate"@.len() == 5);
    assert("label"@[0] != "crate"@[0]);
}

proof fn lemma_extension_stays(said: ExtensionView, names: Seq<Seq<char>>, entries: Seq<ExtensionEntry>, index: int)
    requires
        0 <= index,
    ensures
        extension_from(said, names, entries, index) matches Ok(result) ==> {
            &&& names.contains("name"@) ==> result.name == said.name
            &&& names.contains("label"@) ==> result.label == said.label
            &&& names.contains("configuration"@) ==> result.configuration == said.configuration
            &&& names.contains("actions"@) ==> result.actions == said.actions
            &&& names.contains("crate"@) ==> result.crate_path == said.crate_path
        },
    decreases entries.len() - index,
{
    lemma_words_of_extensions();
    if index < entries.len() && extension_from(said, names, entries, index) is Ok {
        let key = entries[index].key@;
        let next = extension_step(said, entries[index])->Ok_0;
        let later = names.push(key);
        lemma_extension_stays(next, later, entries, index + 1);
        assert forall|name: Seq<char>| #[trigger] names.contains(name) implies later.contains(name) by {
            let at = choose|at: int| 0 <= at < names.len() && names[at] == name;
            assert(later[at] == name);
        }
    }
}

/// What each entry of `extension!` says is kept, and nothing is said that no entry says.
pub proof fn law_extension_entries_are_kept(
    said: ExtensionView,
    names: Seq<Seq<char>>,
    entries: Seq<ExtensionEntry>,
    index: int,
)
    requires
        0 <= index,
    ensures
        extension_from(said, names, entries, index) matches Ok(result) ==> {
            &&& result.name is Some && result.actions is Some
            &&& forall|i: int| index <= i < entries.len() ==> is_told(#[trigger] entries[i], result)
            &&& result.name != said.name ==> exists|i: int|
                index <= i < entries.len() && (#[trigger] entries[i]).key@ == "name"@
            &&& result.label != said.label ==> exists|i: int|
                index <= i < entries.len() && (#[trigger] entries[i]).key@ == "label"@
            &&& result.configuration != said.configuration ==> exists|i: int|
                index <= i < entries.len() && (#[trigger] entries[i]).key@ == "configuration"@
            &&& result.actions != said.actions ==> exists|i: int|
                index <= i < entries.len() && (#[trigger] entries[i]).key@ == "actions"@
            &&& result.crate_path != said.crate_path ==> exists|i: int|
                index <= i < entries.len() && (#[trigger] entries[i]).key@ == "crate"@
        },
    decreases entries.len() - index,
{
    lemma_words_of_extensions();
    lemma_parsed(said, names, entries, index);
    if index < entries.len() && extension_from(said, names, entries, index) is Ok {
        let key = entries[index].key@;
        let next = extension_step(said, entries[index])->Ok_0;
        let later = names.push(key);
        law_extension_entries_are_kept(next, later, entries, index + 1);
        lemma_extension_stays(next, later, entries, index + 1);
        assert(later.last() == key);
        assert(later.contains(key));
    }
}

proof fn lemma_actions(actions: Seq<ActionPath>, end: int)
    requires
        0 <= end <= actions.len(),
    ensures
        actions_fault(actions, end) is None <==> {
            &&& forall|i: int| 0 <= i < end ==> !(#[trigger] actions[i]).generic
            &&& forall|i: int, j: int|
                0 <= i < j < end ==> (#[trigger] actions[i]).tokens@ != (#[trigger] actions[j]).tokens@
        },
    decreases end,
{
    if end > 0 {
        lemma_actions(actions, end - 1);
    }
}

/// An extension is accepted exactly where its name is two or more keys between dots in at
/// most 128 bytes, its label can be shown in 60 characters, and it lists one through 64
/// actions, each written once and without arguments.
pub proof fn law_extensions_are_accepted(said: ExtensionView)
    requires
        said.name is Some,
        said.actions is Some,
    ensures
        extension_fault(said) is None <==> {
            let name = said.name->0;
            let actions = said.actions->0;
            &&& byte_count(name) <= 128
            &&& pieces(name, '.').len() >= 2
            &&& forall|i: int| 0 <= i < pieces(name, '.').len() ==> is_manifest_key(#[trigger] pieces(name, '.')[i])
            &&& said.label is Some ==> is_display(said.label->0, 60)
            &&& 1 <= actions.len() <= 64
            &&& forall|i: int| 0 <= i < actions.len() ==> !(#[trigger] actions[i]).generic
            &&& forall|i: int, j: int|
                0 <= i < j < actions.len() ==> (#[trigger] actions[i]).tokens@ != (#[trigger] actions[j]).tokens@
        },
{
    lemma_actions(said.actions->0, said.actions->0.len() as int);
}

/// The declaration of an action stands beside its function: the path leads through the same
/// modules to a name that ends with that of the function, so that two paths lead to one
/// declaration only where both lead to one function.
pub proof fn law_modules_of_actions(path: ActionPath, other: ActionPath)
    ensures
        path.prefix@.is_prefix_of(module_of(path)),
        path.last@.is_suffix_of(module_of(path)),
        module_of(path).len() == path.prefix@.len() + 16 + path.last@.len(),
        module_of(path) == module_of(other) && path.prefix@.len() == other.prefix@.len() ==> path.prefix@
            == other.prefix@ && path.last@ == other.last@,
{
    reveal_strlit("__sloper_action_");
    assert("__sloper_action_"@.len() == 16);
    let middle = "__sloper_action_"@;
    let text = module_of(path);
    assert(text.subrange(text.len() - path.last@.len(), text.len() as int) =~= path.last@);
    if module_of(path) == module_of(other) && path.prefix@.len() == other.prefix@.len() {
        assert(path.prefix@ =~= text.take(path.prefix@.len() as int));
        assert(other.prefix@ =~= text.take(path.prefix@.len() as int));
        assert(path.last@ =~= text.skip(path.prefix@.len() as int + 16));
        assert(other.last@ =~= text.skip(path.prefix@.len() as int + 16));
    }
}

} // verus!
