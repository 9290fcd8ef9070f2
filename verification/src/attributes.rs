//! Attributes on the declarations of an extension: what they say, and what is wrong with
//! them.

use vstd::prelude::*;
use vstd::string::*;

use crate::json::{lemma_array, values_of, Json, JsonValue, Number};
use crate::naming::NameRule;
use crate::release::shown_character;
use crate::text::{
    byte_count, byte_len, chars_of, decimal, digit, holds_text, is_digit, is_lower, is_upper, joined, lower, push_text,
    same_text, texts, upper, write_decimal,
};

verus! {

/// A number in an attribute.
pub struct Numeric {
    pub number: Number,
    /// Where the number stands among the floating-point numbers: of two numbers the
    /// greater has the greater rank, and equal numbers have one rank.
    pub rank: i64,
    /// The number is finite and at most 2^53 - 1 away from zero.
    pub bounded: bool,
}

/// A value in an attribute.
pub enum Literal {
    Text(String),
    Bool(bool),
    Number(Numeric),
    /// A number that cannot be read, for this reason.
    Unread(String),
    Array(Vec<Literal>),
    /// A value behind a minus sign, and what it amounts to, where it is a finite number.
    Negative(Box<Literal>, Option<Numeric>),
    /// A single identifier.
    Word(String),
    /// A literal of another kind.
    OtherLiteral,
    /// No literal.
    Other,
}

/// The JSON value of a literal, or what is wrong with it.
pub open spec fn literal_value(literal: Literal) -> Result<JsonValue, Seq<char>>
    decreases literal, 0nat,
{
    match literal {
        Literal::Text(text) => Ok(JsonValue::Text(text@)),
        Literal::Bool(flag) => Ok(JsonValue::Bool(flag)),
        Literal::Number(numeric) => Ok(JsonValue::Number(numeric.number@)),
        Literal::Unread(reason) => Err(reason@),
        Literal::Array(items) => match first_values(items, items@.len()) {
            Err(words) => Err(words),
            Ok(values) => Ok(JsonValue::Array(values)),
        },
        Literal::Negative(inner, negated) => match literal_value(*inner) {
            Err(words) => Err(words),
            Ok(JsonValue::Number(_)) => match negated {
                Some(numeric) => Ok(JsonValue::Number(numeric.number@)),
                None => Err("Numeric bounds must be finite."@),
            },
            Ok(_) => Err("Only numeric literals can be negative."@),
        },
        Literal::OtherLiteral => Err("Use a string, numeric, boolean, or array literal."@),
        Literal::Word(_) => Err("Schema constraints require literal values."@),
        Literal::Other => Err("Schema constraints require literal values."@),
    }
}

/// The values of the first `end` literals, or what is wrong with the first that is wrong.
pub open spec fn first_values(items: Vec<Literal>, end: nat) -> Result<Seq<JsonValue>, Seq<char>>
    decreases items, end,
{
    if end == 0 || end > items@.len() {
        Ok(Seq::empty())
    } else {
        proof {
            assert(decreases_to!(items => items@));
            assert(decreases_to!(items@ => items@[end - 1]));
        }
        match first_values(items, (end - 1) as nat) {
            Err(words) => Err(words),
            Ok(earlier) => match literal_value(items@[end - 1]) {
                Err(words) => Err(words),
                Ok(value) => Ok(earlier.push(value)),
            },
        }
    }
}

/// Where a literal stands among the floating-point numbers, where it is one.
pub open spec fn literal_rank(literal: Literal) -> Option<i64> {
    match literal {
        Literal::Number(numeric) => Some(numeric.rank),
        Literal::Negative(_, Some(numeric)) => Some(numeric.rank),
        _ => None,
    }
}

/// A literal is a number within the bounds of exact integers.
pub open spec fn is_bounded(literal: Literal) -> bool {
    match literal {
        Literal::Number(numeric) => numeric.bounded,
        Literal::Negative(_, Some(numeric)) => numeric.bounded,
        _ => false,
    }
}

proof fn lemma_first_wrong(items: Vec<Literal>, end: nat)
    requires
        end <= items@.len(),
        first_values(items, end) is Err,
    ensures
        first_values(items, items@.len()) == first_values(items, end),
    decreases items@.len() - end,
{
    if end < items@.len() {
        lemma_first_wrong(items, end + 1);
    }
}

fn copy_number(number: &Number) -> (copied: Number)
    ensures
        copied@ == number@,
{
    match number {
        Number::Unsigned(value) => Number::Unsigned(*value),
        Number::Negative(value) => Number::Negative(*value),
        Number::Decimal(text) => Number::Decimal(text.clone()),
    }
}

/// Returns the JSON value of a literal.
pub fn literal(written: &Literal) -> (value: Result<Json, String>)
    ensures
        match literal_value(*written) {
            Ok(expected) => value matches Ok(value) && value@ == expected,
            Err(words) => value matches Err(message) && message@ == words,
        },
    decreases written,
{
    match written {
        Literal::Text(text) => Ok(Json::Text(text.clone())),
        Literal::Bool(flag) => Ok(Json::Bool(*flag)),
        Literal::Number(numeric) => Ok(Json::Number(copy_number(&numeric.number))),
        Literal::Unread(reason) => Err(reason.clone()),
        Literal::Array(items) => {
            let mut values: Vec<Json> = Vec::new();
            let mut index: usize = 0;
            assert(values_of(values@) =~= Seq::empty());
            while index < items.len()
                invariant
                    index <= items.len(),
                    *written == Literal::Array(*items),
                    first_values(*items, index as nat) == Ok::<_, Seq<char>>(values_of(values@)),
                decreases items.len() - index,
            {
                assert(decreases_to!(*written => written->Array_0));
                assert(decreases_to!(*items => items@));
                assert(decreases_to!(items@ => items@[index as int]));
                let ghost before = values@;
                match literal(&items[index]) {
                    Ok(value) => {
                        values.push(value);
                        assert(values_of(values@) =~= values_of(before).push(values@.last()@));
                    },
                    Err(message) => {
                        proof {
                            lemma_first_wrong(*items, (index + 1) as nat);
                        }
                        return Err(message);
                    },
                }
                index += 1;
            }
            proof {
                lemma_array(values);
            }
            Ok(Json::Array(values))
        },
        Literal::Negative(inner, negated) => {
            match literal(inner) {
                Err(message) => Err(message),
                Ok(Json::Number(_)) => match negated {
                    Some(numeric) => Ok(Json::Number(copy_number(&numeric.number))),
                    None => Err("Numeric bounds must be finite.".to_owned()),
                },
                Ok(_) => Err("Only numeric literals can be negative.".to_owned()),
            }
        },
        Literal::OtherLiteral => Err("Use a string, numeric, boolean, or array literal.".to_owned()),
        Literal::Word(_) => Err("Schema constraints require literal values.".to_owned()),
        Literal::Other => Err("Schema constraints require literal values.".to_owned()),
    }
}

/// What stands behind the name of an attribute's entry.
pub enum MetaValue {
    Absent,
    /// `= literal`
    Equals(Literal),
    /// `(entries)`
    List(Vec<Meta>),
}

/// An entry of an attribute.
pub struct Meta {
    /// The name, where it is a single identifier.
    pub name: Option<String>,
    pub value: MetaValue,
}

/// What an attribute holds.
pub enum Contents {
    /// Entries in brackets.
    Metas(Vec<Meta>),
    /// `= "text"`
    Text(String),
    /// Something else, and the words for it.
    Other(String),
}

/// An attribute on a declaration.
pub struct Attribute {
    /// The name, where it is a single identifier.
    pub path: Option<String>,
    pub contents: Contents,
}

/// An entry of the attributes of one name.
pub enum Entry<'a> {
    Meta(&'a Meta),
    /// An attribute without entries in brackets, and the words for it.
    Broken(&'a str),
}

/// What an entry is.
pub ghost enum EntryView {
    Meta(Meta),
    Broken(Seq<char>),
}

impl View for Entry<'_> {
    type V = EntryView;

    open spec fn view(&self) -> EntryView {
        match self {
            Entry::Meta(meta) => EntryView::Meta(**meta),
            Entry::Broken(words) => EntryView::Broken(words@),
        }
    }
}

/// What the contents of an attribute hold as entries.
pub open spec fn contents_entries(contents: Contents) -> Seq<EntryView> {
    match contents {
        Contents::Metas(metas) => metas@.map_values(|meta: Meta| EntryView::Meta(meta)),
        Contents::Text(_) => seq![EntryView::Broken("expected parentheses"@)],
        Contents::Other(words) => seq![EntryView::Broken(words@)],
    }
}

/// The attribute has this name.
pub open spec fn is_named(attribute: Attribute, path: Seq<char>) -> bool {
    attribute.path matches Some(found) && found@ == path
}

/// The entries of the attributes of one name among the first `end`.
pub open spec fn entries_of(attributes: Seq<Attribute>, path: Seq<char>, end: int) -> Seq<EntryView>
    decreases end,
{
    if end <= 0 {
        Seq::empty()
    } else {
        let earlier = entries_of(attributes, path, end - 1);
        if is_named(attributes[end - 1], path) {
            earlier + contents_entries(attributes[end - 1].contents)
        } else {
            earlier
        }
    }
}

/// What several entries are.
pub open spec fn entry_views(entries: Seq<Entry<'_>>) -> Seq<EntryView> {
    entries.map_values(|entry: Entry<'_>| entry@)
}

fn named(attribute: &Attribute, path: &str) -> (found: bool)
    ensures
        found == is_named(*attribute, path@),
{
    match &attribute.path {
        Some(found) => same_text(found.as_str(), path),
        None => false,
    }
}

/// Collects the entries of the attributes of one name.
pub fn collect_entries<'a>(attributes: &'a Vec<Attribute>, path: &str) -> (entries: Vec<Entry<'a>>)
    ensures
        entry_views(entries@) == entries_of(attributes@, path@, attributes@.len() as int),
{
    let mut entries: Vec<Entry<'a>> = Vec::new();
    let mut index: usize = 0;
    assert(entry_views(entries@) =~= Seq::empty());
    while index < attributes.len()
        invariant
            index <= attributes.len(),
            entry_views(entries@) == entries_of(attributes@, path@, index as int),
        decreases attributes.len() - index,
    {
        let attribute = &attributes[index];
        if named(attribute, path) {
            let ghost before = entry_views(entries@);
            let ghost expected = contents_entries(attribute.contents);
            match &attribute.contents {
                Contents::Metas(metas) => {
                    let mut at: usize = 0;
                    assert(before + expected.take(0) =~= before);
                    while at < metas.len()
                        invariant
                            at <= metas.len(),
                            expected == metas@.map_values(|meta: Meta| EntryView::Meta(meta)),
                            entry_views(entries@) == before + expected.take(at as int),
                        decreases metas.len() - at,
                    {
                        let ghost earlier = entries@;
                        entries.push(Entry::Meta(&metas[at]));
                        proof {
                            assert(entry_views(entries@) =~= entry_views(earlier).push(EntryView::Meta(metas@[at as int])));
                            assert(expected.take(at + 1) =~= expected.take(at as int).push(expected[at as int]));
                            assert(entry_views(entries@) =~= before + expected.take(at + 1));
                        }
                        at += 1;
                    }
                    assert(expected.take(expected.len() as int) =~= expected);
                },
                Contents::Text(_) => {
                    let ghost earlier = entries@;
                    entries.push(Entry::Broken("expected parentheses"));
                    assert(entry_views(entries@) =~= before + expected);
                },
                Contents::Other(words) => {
                    entries.push(Entry::Broken(words.as_str()));
                    assert(entry_views(entries@) =~= before + expected);
                },
            }
        }
        index += 1;
    }
    entries
}

/// The text that an entry is given, or what is wrong with it.
pub open spec fn text_value(value: MetaValue) -> Result<Seq<char>, Seq<char>> {
    match value {
        MetaValue::Equals(Literal::Text(text)) => Ok(text@),
        MetaValue::Equals(_) => Err("expected string literal"@),
        _ => Err("expected `=`"@),
    }
}

/// Returns the text that an entry is given.
pub fn meta_text(value: &MetaValue) -> (text: Result<&str, String>)
    ensures
        match text_value(*value) {
            Ok(expected) => text matches Ok(text) && text@ == expected,
            Err(words) => text matches Err(message) && message@ == words,
        },
{
    match value {
        MetaValue::Equals(Literal::Text(text)) => Ok(text.as_str()),
        MetaValue::Equals(_) => Err("expected string literal".to_owned()),
        _ => Err("expected `=`".to_owned()),
    }
}

/// The most characters of a path with marks in it.
pub const MAX_PATH: usize = 40;

/// A character of a path without marks.
pub open spec fn is_path_character(character: char) -> bool {
    lower(character) || upper(character) || digit(character) || character == '_' || character == ':' || character == ' '
}

/// A text that is short, or holds no marks, between which other types could stand.
pub open spec fn is_simple(text: Seq<char>) -> bool {
    text.len() <= MAX_PATH || forall|index: int| 0 <= index < text.len() ==> is_path_character(#[trigger] text[index])
}

/// The text is a Rust path.
pub uninterp spec fn path_parses(text: Seq<char>) -> bool;

/// Reads a text as a `Path` with `parse_str` of syn. Whether it is one depends on the text
/// alone. The words of a refusal are not kept.
#[verifier::external_body]
fn parse_path(text: &str) -> (parsed: bool)
    requires
        is_simple(text@),
    ensures
        parsed == path_parses(text@),
{
    syn::parse_str::<syn::Path>(text).is_ok()
}

/// The text names a crate.
pub open spec fn is_crate_path(text: Seq<char>) -> bool {
    is_simple(text) && path_parses(text)
}

fn simple(text: &str) -> (found: bool)
    ensures
        found == is_simple(text@),
{
    let characters = chars_of(text);
    if characters.len() <= MAX_PATH {
        return true;
    }
    let mut index: usize = 0;
    while index < characters.len()
        invariant
            index <= characters@.len(),
            characters@ == text@,
            characters@.len() > MAX_PATH,
            forall|i: int| 0 <= i < index ==> is_path_character(#[trigger] text@[i]),
        decreases characters@.len() - index,
    {
        let character = characters[index];
        if !(is_lower(character) || is_upper(character) || is_digit(character) || character == '_' || character == ':'
            || character == ' ') {
            assert(!is_path_character(text@[index as int]));
            return false;
        }
        index += 1;
    }
    true
}

/// Whether a text names a crate.
pub fn crate_path(text: &str) -> (found: bool)
    ensures
        found == is_crate_path(text@),
{
    simple(text) && parse_path(text)
}

/// What a path of a crate comes to that is given as a text, or whose text is missing;
/// `parses` where the text is a path.
pub open spec fn path_of(text: Result<Seq<char>, Seq<char>>, parses: bool) -> Result<Seq<char>, Seq<char>> {
    match text {
        Ok(text) => if parses {
            Ok(text)
        } else {
            Err("Use the path of the SDK crate."@)
        },
        Err(words) => Err(words),
    }
}

/// The path of a crate that an entry is given, or what is wrong with it.
pub open spec fn path_value(value: MetaValue) -> Result<Seq<char>, Seq<char>> {
    path_of(text_value(value), is_crate_path(text_value(value)->Ok_0))
}

/// Returns the path of a crate where it is one.
pub fn checked_path(text: &str, parses: bool) -> (path: Result<String, String>)
    ensures
        match path_of(Ok(text@), parses) {
            Ok(expected) => path matches Ok(path) && path@ == expected,
            Err(words) => path matches Err(message) && message@ == words,
        },
{
    if parses {
        Ok(text.to_owned())
    } else {
        Err("Use the path of the SDK crate.".to_owned())
    }
}

/// Returns the path of a crate that an entry is given.
pub fn meta_path(value: &MetaValue) -> (path: Result<String, String>)
    ensures
        match path_value(*value) {
            Ok(expected) => path matches Ok(path) && path@ == expected,
            Err(words) => path matches Err(message) && message@ == words,
        },
{
    match meta_text(value) {
        Ok(text) => checked_path(text, crate_path(text)),
        Err(message) => Err(message),
    }
}

/// The words for a name that is set twice.
pub open spec fn repeated_words(name: Seq<char>) -> Seq<char> {
    "`"@ + name + "` set multiple times."@
}

/// Writes the words for a name that is set twice.
pub fn repeated(name: &str) -> (words: String)
    ensures
        words@ == repeated_words(name@),
{
    joined(joined("`", name).as_str(), "` set multiple times.")
}

/// Text that people read: bounded, without characters that control or turn it.
pub open spec fn is_display(text: Seq<char>, maximum: nat) -> bool {
    text.len() <= maximum && forall|index: int| 0 <= index < text.len() ==> shown_character(#[trigger] text[index])
}

/// The words for text that is not fit to be read.
pub open spec fn display_words(maximum: nat) -> Seq<char> {
    "Display text must be at most "@ + decimal(maximum)
        + " characters without control or bidi formatting characters."@
}

/// Checks text that people read.
pub fn validate_text(text: &str, maximum: u64) -> (valid: Result<(), String>)
    ensures
        if is_display(text@, maximum as nat) {
            valid == Ok::<(), String>(())
        } else {
            valid matches Err(message) && message@ == display_words(maximum as nat)
        },
{
    let characters = chars_of(text);
    let mut good = characters.len() as u64 <= maximum;
    let mut index: usize = 0;
    while good && index < characters.len()
        invariant
            index <= characters.len(),
            characters@ == text@,
            good ==> text@.len() <= maximum && forall|i: int| 0 <= i < index ==> shown_character(#[trigger] text@[i]),
            !good ==> !is_display(text@, maximum as nat),
        decreases characters.len() - index,
    {
        let c = characters[index];
        if c <= '\u{1f}' || ('\u{7f}' <= c && c <= '\u{9f}') || c == '\u{61c}' || ('\u{200e}' <= c && c <= '\u{200f}')
            || ('\u{202a}' <= c && c <= '\u{202e}') || ('\u{2066}' <= c && c <= '\u{2069}') {
            assert(!shown_character(text@[index as int]));
            good = false;
        }
        index += 1;
    }
    if good {
        return Ok(());
    }
    let mut message = joined("Display text must be at most ", write_decimal(maximum).as_str());
    push_text(&mut message, " characters without control or bidi formatting characters.");
    Err(message)
}

/// A character of a serialized property name, at the start of it or behind.
pub open spec fn property_character(character: char, first: bool) -> bool {
    character == '_' || lower(character) || upper(character) || (!first && digit(character))
}

/// A serialized property name.
pub open spec fn is_property(name: Seq<char>) -> bool {
    &&& 0 < name.len()
    &&& byte_count(name) <= 64
    &&& forall|index: int| 0 <= index < name.len() ==> property_character(#[trigger] name[index], index == 0)
}

/// Checks a serialized property name.
pub fn validate_property(name: &str) -> (valid: Result<(), String>)
    ensures
        if is_property(name@) {
            valid == Ok::<(), String>(())
        } else {
            valid matches Err(message) && message@
                == "Serialized property names must match `[A-Za-z_][A-Za-z0-9_]*` and fit 64 characters."@
        },
{
    let characters = chars_of(name);
    let mut good = characters.len() > 0 && byte_len(name) <= 64;
    let mut index: usize = 0;
    while good && index < characters.len()
        invariant
            index <= characters.len(),
            characters@ == name@,
            good ==> 0 < name@.len() && byte_count(name@) <= 64 && forall|i: int|
                0 <= i < index ==> property_character(#[trigger] name@[i], i == 0),
            !good ==> !is_property(name@),
        decreases characters.len() - index,
    {
        let c = characters[index];
        if !(c == '_' || is_lower(c) || is_upper(c) || (index > 0 && is_digit(c))) {
            assert(!property_character(name@[index as int], index == 0));
            good = false;
        }
        index += 1;
    }
    if good {
        Ok(())
    } else {
        Err("Serialized property names must match `[A-Za-z_][A-Za-z0-9_]*` and fit 64 characters.".to_owned())
    }
}

/// A format that a string may have.
pub open spec fn is_format(text: Seq<char>) -> bool {
    text == "date"@ || text == "date-time"@ || text == "email"@ || text == "uri"@ || text == "uuid"@
}

/// The words for a format that a string may not have.
pub open spec fn format_words() -> Seq<char> {
    "Supported string formats are `date`, `date-time`, `email`, `uri`, and `uuid`; managed sources use `Source`."@
}

/// Checks the format of a string.
pub fn format_value(value: &MetaValue) -> (format: Result<&str, String>)
    ensures
        match text_value(*value) {
            Err(words) => format matches Err(message) && message@ == words,
            Ok(text) => if is_format(text) {
                format matches Ok(format) && format@ == text
            } else {
                format matches Err(message) && message@ == format_words()
            },
        },
{
    let text = match meta_text(value) {
        Ok(text) => text,
        Err(message) => return Err(message),
    };
    if same_text(text, "date") || same_text(text, "date-time") || same_text(text, "email") || same_text(text, "uri")
        || same_text(text, "uuid") {
        Ok(text)
    } else {
        Err(
            "Supported string formats are `date`, `date-time`, `email`, `uri`, and `uuid`; managed sources use `Source`.".to_owned(),
        )
    }
}

/// What carries a `serde` attribute.
#[derive(Clone, Copy, Debug, PartialEq, Eq, Structural)]
pub enum Owner {
    Type,
    Field,
    Variant,
}

/// What the `serde` attributes of a declaration say.
pub struct Serde {
    pub rename: Option<String>,
    pub rename_all: Option<NameRule>,
    pub default: bool,
    pub skip: bool,
    pub flatten: bool,
}

/// What `serde` attributes say.
pub ghost struct SerdeView {
    pub rename: Option<Seq<char>>,
    pub rename_all: Option<NameRule>,
    pub default: bool,
    pub skip: bool,
    pub flatten: bool,
}

impl View for Serde {
    type V = SerdeView;

    open spec fn view(&self) -> SerdeView {
        SerdeView {
            rename: match self.rename {
                Some(name) => Some(name@),
                None => None,
            },
            rename_all: self.rename_all,
            default: self.default,
            skip: self.skip,
            flatten: self.flatten,
        }
    }
}

/// No `serde` attributes.
pub open spec fn plain_serde() -> SerdeView {
    SerdeView { rename: None, rename_all: None, default: false, skip: false, flatten: false }
}

/// What the entry `name` makes of what was said before, or what is wrong with it.
pub open spec fn serde_step(serde: SerdeView, owner: Owner, name: Seq<char>, value: MetaValue) -> Result<
    SerdeView,
    Seq<char>,
> {
    if name == "rename"@ {
        match text_value(value) {
            Err(words) => Err(words),
            Ok(text) => Ok(SerdeView { rename: Some(text), ..serde }),
        }
    } else if name == "rename_all"@ && owner == Owner::Type {
        match text_value(value) {
            Err(words) => Err(words),
            Ok(text) => match NameRule::of_text(text) {
                None => Err("Use a serde-supported `rename_all` rule."@),
                Some(rule) => Ok(SerdeView { rename_all: Some(rule), ..serde }),
            },
        }
    } else if name == "default"@ && owner != Owner::Variant {
        match value {
            MetaValue::Absent => Ok(SerdeView { default: true, ..serde }),
            MetaValue::Equals(Literal::Text(_)) => Ok(SerdeView { default: true, ..serde }),
            MetaValue::Equals(_) => Err("expected string literal"@),
            MetaValue::List(_) => Err("expected `,`"@),
        }
    } else if name == "skip"@ && owner != Owner::Type {
        if value is Absent {
            Ok(SerdeView { skip: true, ..serde })
        } else {
            Err("expected `,`"@)
        }
    } else if name == "flatten"@ && owner == Owner::Field {
        if value is Absent {
            Ok(SerdeView { flatten: true, ..serde })
        } else {
            Err("expected `,`"@)
        }
    } else {
        Err(
            "Only `rename`, `rename_all`, `default`, `skip`, and flatten on `Fields` may change schema serialization."@,
        )
    }
}

/// What the entries from `index` on make of what was said before.
pub open spec fn serde_from(
    serde: SerdeView,
    owner: Owner,
    names: Seq<Seq<char>>,
    entries: Seq<EntryView>,
    index: int,
) -> Result<SerdeView, Seq<char>>
    decreases entries.len() - index,
{
    if index < 0 || index >= entries.len() {
        Ok(serde)
    } else {
        match entries[index] {
            EntryView::Broken(words) => Err(words),
            EntryView::Meta(meta) => match meta.name {
                None => Err("Use a supported serde attribute."@),
                Some(name) => if names.contains(name@) {
                    Err(repeated_words(name@))
                } else {
                    match serde_step(serde, owner, name@, meta.value) {
                        Err(words) => Err(words),
                        Ok(next) => serde_from(next, owner, names.push(name@), entries, index + 1),
                    }
                },
            },
        }
    }
}

/// What the `serde` attributes of a declaration say, or what is wrong with them.
pub open spec fn serde_of(attributes: Seq<Attribute>, owner: Owner) -> Result<SerdeView, Seq<char>> {
    match serde_from(
        plain_serde(),
        owner,
        Seq::empty(),
        entries_of(attributes, "serde"@, attributes.len() as int),
        0,
    ) {
        Err(words) => Err(words),
        Ok(serde) => if serde.skip && (serde.flatten || serde.rename is Some || serde.default) {
            Err("`skip` cannot be combined with flatten, rename, or default."@)
        } else {
            Ok(serde)
        },
    }
}

fn apply_serde(serde: &mut Serde, owner: Owner, name: &str, value: &MetaValue) -> (applied: Result<(), String>)
    ensures
        match serde_step(old(serde)@, owner, name@, *value) {
            Ok(expected) => applied == Ok::<(), String>(()) && final(serde)@ == expected,
            Err(words) => applied matches Err(message) && message@ == words,
        },
{
    if same_text(name, "rename") {
        return match meta_text(value) {
            Ok(text) => {
                serde.rename = Some(text.to_owned());
                Ok(())
            },
            Err(message) => Err(message),
        };
    }
    if same_text(name, "rename_all") && owner == Owner::Type {
        return match meta_text(value) {
            Ok(text) => match NameRule::parse(text) {
                Some(rule) => {
                    serde.rename_all = Some(rule);
                    Ok(())
                },
                None => Err("Use a serde-supported `rename_all` rule.".to_owned()),
            },
            Err(message) => Err(message),
        };
    }
    if same_text(name, "default") && owner != Owner::Variant {
        return match value {
            MetaValue::Absent => {
                serde.default = true;
                Ok(())
            },
            MetaValue::Equals(Literal::Text(_)) => {
                serde.default = true;
                Ok(())
            },
            MetaValue::Equals(_) => Err("expected string literal".to_owned()),
            MetaValue::List(_) => Err("expected `,`".to_owned()),
        };
    }
    if same_text(name, "skip") && owner != Owner::Type {
        return match value {
            MetaValue::Absent => {
                serde.skip = true;
                Ok(())
            },
            _ => Err("expected `,`".to_owned()),
        };
    }
    if same_text(name, "flatten") && owner == Owner::Field {
        return match value {
            MetaValue::Absent => {
                serde.flatten = true;
                Ok(())
            },
            _ => Err("expected `,`".to_owned()),
        };
    }
    Err(
        "Only `rename`, `rename_all`, `default`, `skip`, and flatten on `Fields` may change schema serialization.".to_owned(),
    )
}

/// Reads the `serde` attributes of a declaration.
pub fn serde(attributes: &Vec<Attribute>, owner: Owner) -> (result: Result<Serde, String>)
    ensures
        match serde_of(attributes@, owner) {
            Ok(expected) => result matches Ok(result) && result@ == expected,
            Err(words) => result matches Err(message) && message@ == words,
        },
{
    let entries = collect_entries(attributes, "serde");
    let ghost shown = entry_views(entries@);
    let mut serde = Serde { rename: None, rename_all: None, default: false, skip: false, flatten: false };
    let mut names: Vec<String> = Vec::new();
    let ghost outcome = serde_from(plain_serde(), owner, Seq::empty(), shown, 0);
    let mut index: usize = 0;
    assert(texts(names@) =~= Seq::empty());
    while index < entries.len()
        invariant
            index <= entries.len(),
            shown == entry_views(entries@),
            shown == entries_of(attributes@, "serde"@, attributes@.len() as int),
            outcome == serde_from(plain_serde(), owner, Seq::empty(), shown, 0),
            outcome == serde_from(serde@, owner, texts(names@), shown, index as int),
        decreases entries.len() - index,
    {
        assert(shown[index as int] == entries@[index as int]@);
        let meta = match &entries[index] {
            Entry::Meta(meta) => *meta,
            Entry::Broken(words) => return Err((*words).to_owned()),
        };
        let name = match &meta.name {
            Some(name) => name,
            None => return Err("Use a supported serde attribute.".to_owned()),
        };
        if holds_text(&names, name.as_str()) {
            return Err(repeated(name.as_str()));
        }
        match apply_serde(&mut serde, owner, name.as_str(), &meta.value) {
            Ok(_) => {},
            Err(message) => return Err(message),
        }
        let ghost before = names@;
        names.push(name.clone());
        assert(texts(names@) =~= texts(before).push(name@));
        index += 1;
    }
    assert(shown.len() == entries@.len());
    if serde.skip && (serde.flatten || serde.rename.is_some() || serde.default) {
        return Err("`skip` cannot be combined with flatten, rename, or default.".to_owned());
    }
    Ok(serde)
}

/// Without attributes nothing is said.
pub proof fn law_no_attributes_say_nothing(attributes: Seq<Attribute>, owner: Owner)
    requires
        attributes.len() == 0,
    ensures
        serde_of(attributes, owner) matches Ok(said) && said.rename is None && said.rename_all is None && !said.default
            && !said.skip && !said.flatten,
        entries_of(attributes, "schema"@, attributes.len() as int).len() == 0,
{
}

spec fn names_entry(entries: Seq<EntryView>, end: int, name: Seq<char>) -> bool {
    exists|i: int| 0 <= i < end && #[trigger] has_name(entries[i], name)
}

spec fn has_name(entry: EntryView, name: Seq<char>) -> bool {
    entry matches EntryView::Meta(meta) && meta.name matches Some(found) && found@ == name
}

proof fn lemma_serde_read(serde: SerdeView, owner: Owner, names: Seq<Seq<char>>, entries: Seq<EntryView>, index: int)
    requires
        0 <= index <= entries.len(),
        serde_from(serde, owner, names, entries, index) is Ok,
        serde.default <==> names_entry(entries, index, "default"@),
        serde.skip <==> names_entry(entries, index, "skip"@),
        serde.flatten <==> names_entry(entries, index, "flatten"@),
        serde.rename is Some <==> names_entry(entries, index, "rename"@),
        serde.rename_all is Some <==> names_entry(entries, index, "rename_all"@),
        forall|i: int| 0 <= i < index ==> (#[trigger] entries[i]) is Meta && entries[i]->Meta_0.name is Some && names.contains(
            entries[i]->Meta_0.name->0@,
        ),
        forall|i: int, text: Seq<char>|
            0 <= i < index && #[trigger] gives_text(entries[i], "rename"@, text) ==> serde.rename == Some(text),
        forall|i: int, text: Seq<char>|
            0 <= i < index && #[trigger] gives_text(entries[i], "rename_all"@, text) ==> serde.rename_all
                == NameRule::of_text(text),
    ensures
        ({
            let said = serde_from(serde, owner, names, entries, index)->Ok_0;
            let end = entries.len() as int;
            &&& said.default <==> names_entry(entries, end, "default"@)
            &&& said.skip <==> names_entry(entries, end, "skip"@)
            &&& said.flatten <==> names_entry(entries, end, "flatten"@)
            &&& said.rename is Some <==> names_entry(entries, end, "rename"@)
            &&& said.rename_all is Some <==> names_entry(entries, end, "rename_all"@)
            &&& forall|i: int, text: Seq<char>|
                0 <= i < end && #[trigger] gives_text(entries[i], "rename"@, text) ==> said.rename == Some(text)
            &&& forall|i: int, text: Seq<char>|
                0 <= i < end && #[trigger] gives_text(entries[i], "rename_all"@, text) ==> said.rename_all
                    == NameRule::of_text(text)
        }),
    decreases entries.len() - index,
{
    if index < entries.len() {
        lemma_serde_words();
        let meta = entries[index]->Meta_0;
        let name = meta.name->0@;
        let next = serde_step(serde, owner, name, meta.value)->Ok_0;
        assert(has_name(entries[index], name));
        assert forall|other: Seq<char>| #[trigger] names_entry(entries, index + 1, other) <==> names_entry(
            entries,
            index,
            other,
        ) || other == name by {
            if names_entry(entries, index, other) {
                let i = choose|i: int| 0 <= i < index && #[trigger] has_name(entries[i], other);
                assert(has_name(entries[i], other));
            }
            if names_entry(entries, index + 1, other) && other != name {
                let i = choose|i: int| 0 <= i < index + 1 && #[trigger] has_name(entries[i], other);
                assert(i < index);
            }
        }
        assert forall|i: int| 0 <= i < index + 1 implies (#[trigger] entries[i]) is Meta && entries[i]->Meta_0.name is Some
            && names.push(name).contains(entries[i]->Meta_0.name->0@) by {
            if i < index {
                let found = entries[i]->Meta_0.name->0@;
                let at = choose|at: int| 0 <= at < names.len() && names[at] == found;
                assert(names.push(name)[at] == found);
            } else {
                assert(names.push(name)[names.len() as int] == name);
            }
        }
        assert forall|i: int, text: Seq<char>|
            0 <= i < index + 1 && #[trigger] gives_text(entries[i], "rename"@, text) implies next.rename == Some(text) by {
            if i < index {
                assert(entries[i]->Meta_0.name->0@ == "rename"@);
            }
        }
        assert forall|i: int, text: Seq<char>|
            0 <= i < index + 1 && #[trigger] gives_text(entries[i], "rename_all"@, text) implies next.rename_all
            == NameRule::of_text(text) by {
            if i < index {
                assert(entries[i]->Meta_0.name->0@ == "rename_all"@);
            }
        }
        lemma_serde_read(next, owner, names.push(name), entries, index + 1);
    }
}

/// The entry of this name is given a text.
pub open spec fn gives_text(entry: EntryView, name: Seq<char>, text: Seq<char>) -> bool {
    entry matches EntryView::Meta(meta) && {
        &&& meta.name matches Some(found) && found@ == name
        &&& meta.value matches MetaValue::Equals(Literal::Text(given)) && given@ == text
    }
}

proof fn lemma_serde_words()
    ensures
        "rename"@ != "rename_all"@,
        "rename"@ != "default"@,
        "rename"@ != "skip"@,
        "rename"@ != "flatten"@,
        "rename_all"@ != "default"@,
        "rename_all"@ != "skip"@,
        "rename_all"@ != "flatten"@,
        "default"@ != "skip"@,
        "default"@ != "flatten"@,
        "skip"@ != "flatten"@,
{
    reveal_strlit("rename");
    reveal_strlit("rename_all");
    reveal_strlit("default");
    reveal_strlit("skip");
    reveal_strlit("flatten");
    assert("rename"@.len() == 6 && "rename_all"@.len() == 10 && "default"@.len() == 7 && "skip"@.len() == 4
        && "flatten"@.len() == 7);
    assert("default"@[0] == 'd' && "flatten"@[0] == 'f');
}

/// What `serde` attributes say is what stands in them: a default, a skip or a flattening where
/// an entry of that name stands, the name that an entry `rename` gives, and the rule that an
/// entry `rename_all` names.
pub proof fn law_serde_says_what_is_written(attributes: Seq<Attribute>, owner: Owner)
    requires
        serde_of(attributes, owner) is Ok,
    ensures
        ({
            let entries = entries_of(attributes, "serde"@, attributes.len() as int);
            let said = serde_of(attributes, owner)->Ok_0;
            &&& said.default <==> exists|i: int| 0 <= i < entries.len() && #[trigger] is_called(entries[i], "default"@)
            &&& said.skip <==> exists|i: int| 0 <= i < entries.len() && #[trigger] is_called(entries[i], "skip"@)
            &&& said.flatten <==> exists|i: int| 0 <= i < entries.len() && #[trigger] is_called(entries[i], "flatten"@)
            &&& said.rename is Some <==> exists|i: int| 0 <= i < entries.len() && #[trigger] is_called(entries[i], "rename"@)
            &&& forall|i: int, text: Seq<char>|
                0 <= i < entries.len() && #[trigger] gives_text(entries[i], "rename"@, text) ==> said.rename == Some(text)
            &&& forall|i: int, text: Seq<char>|
                0 <= i < entries.len() && #[trigger] gives_text(entries[i], "rename_all"@, text) ==> said.rename_all
                    == NameRule::of_text(text) && said.rename_all is Some
            &&& said.skip ==> !said.flatten && !said.default && said.rename is None
        }),
{
    let entries = entries_of(attributes, "serde"@, attributes.len() as int);
    let end = entries.len() as int;
    assert forall|name: Seq<char>| !#[trigger] names_entry(entries, 0, name) by {}
    lemma_serde_read(plain_serde(), owner, Seq::empty(), entries, 0);
    assert forall|name: Seq<char>| #[trigger] names_entry(entries, end, name) <==> exists|i: int|
        0 <= i < entries.len() && #[trigger] is_called(entries[i], name) by {
        if names_entry(entries, end, name) {
            let i = choose|i: int| 0 <= i < end && #[trigger] has_name(entries[i], name);
            assert(is_called(entries[i], name));
        }
        if exists|i: int| 0 <= i < entries.len() && #[trigger] is_called(entries[i], name) {
            let i = choose|i: int| 0 <= i < entries.len() && #[trigger] is_called(entries[i], name);
            assert(has_name(entries[i], name));
        }
    }
    assert forall|i: int, text: Seq<char>|
        0 <= i < entries.len() && #[trigger] gives_text(entries[i], "rename_all"@, text) implies serde_of(
        attributes,
        owner,
    )->Ok_0.rename_all is Some by {
        assert(has_name(entries[i], "rename_all"@));
        assert(names_entry(entries, end, "rename_all"@));
    }
}

/// The entry has this name.
pub open spec fn is_called(entry: EntryView, name: Seq<char>) -> bool {
    entry matches EntryView::Meta(meta) && meta.name matches Some(found) && found@ == name
}

/// Every entry of every attribute of a name is read, and no other.
pub proof fn law_entries_of_all_attributes(attributes: Seq<Attribute>, path: Seq<char>, end: int, index: int)
    requires
        0 <= index < end <= attributes.len(),
        attributes[index].path matches Some(found) && found@ == path,
    ensures
        attributes[index].contents matches Contents::Metas(metas) ==> forall|i: int|
            0 <= i < metas@.len() ==> entries_of(attributes, path, end).contains(EntryView::Meta(#[trigger] metas@[i])),
        !(attributes[index].contents is Metas) ==> exists|i: int|
            0 <= i < entries_of(attributes, path, end).len() && (#[trigger] entries_of(attributes, path, end)[i]) is Broken,
        entries_of(attributes, path, end).len() >= entries_of(attributes, path, end - 1).len(),
    decreases end,
{
    let all = entries_of(attributes, path, end);
    let earlier = entries_of(attributes, path, end - 1);
    let added = contents_entries(attributes[end - 1].contents);
    if index == end - 1 {
        assert(all == earlier + added);
        if let Contents::Metas(metas) = attributes[index].contents {
            assert forall|i: int| 0 <= i < metas@.len() implies all.contains(EntryView::Meta(#[trigger] metas@[i])) by {
                assert(all[earlier.len() + i] == EntryView::Meta(metas@[i]));
            }
        } else {
            assert(all[earlier.len() as int] == added[0]);
        }
    } else {
        law_entries_of_all_attributes(attributes, path, end - 1, index);
        assert(all.take(earlier.len() as int) =~= earlier);
        if let Contents::Metas(metas) = attributes[index].contents {
            assert forall|i: int| 0 <= i < metas@.len() implies all.contains(EntryView::Meta(#[trigger] metas@[i])) by {
                let at = choose|at: int| 0 <= at < earlier.len() && earlier[at] == EntryView::Meta(metas@[i]);
                assert(all[at] == earlier[at]);
            }
        } else {
            let at = choose|at: int| 0 <= at < earlier.len() && (#[trigger] earlier[at]) is Broken;
            assert(all[at] == earlier[at]);
        }
    }
}

/// A serialized property name is an identifier of letters, digits and underscores that starts
/// with no digit, of at most 64 characters.
pub proof fn law_property_names(name: Seq<char>)
    ensures
        is_property(name) <==> {
            &&& 1 <= name.len() && byte_count(name) <= 64
            &&& forall|i: int|
                0 <= i < name.len() ==> ('a' <= #[trigger] name[i] <= 'z') || ('A' <= name[i] <= 'Z') || name[i] == '_' || (i
                    > 0 && '0' <= name[i] <= '9')
        },
{
    if is_property(name) {
        assert forall|i: int| 0 <= i < name.len() implies ('a' <= #[trigger] name[i] <= 'z') || ('A' <= name[i] <= 'Z')
            || name[i] == '_' || (i > 0 && '0' <= name[i] <= '9') by {
            assert(property_character(name[i], i == 0));
        }
    }
}

/// Text that people read is of at most so many characters, none of which is a control
/// character or turns the direction of the text; every such text is accepted.
pub proof fn law_display_text(text: Seq<char>, maximum: nat)
    ensures
        is_display(text, maximum) <==> {
            &&& text.len() <= maximum
            &&& forall|i: int|
                0 <= i < text.len() ==> !(#[trigger] text[i] <= '\u{1f}') && !('\u{7f}' <= text[i] <= '\u{9f}') && text[i]
                    != '\u{61c}' && text[i] != '\u{200e}' && text[i] != '\u{200f}' && !('\u{202a}' <= text[i]
                    <= '\u{202e}') && !('\u{2066}' <= text[i] <= '\u{2069}')
        },
{
    if is_display(text, maximum) {
        assert forall|i: int| 0 <= i < text.len() implies !(#[trigger] text[i] <= '\u{1f}') && !('\u{7f}' <= text[i]
            <= '\u{9f}') && text[i] != '\u{61c}' && text[i] != '\u{200e}' && text[i] != '\u{200f}' && !('\u{202a}'
            <= text[i] <= '\u{202e}') && !('\u{2066}' <= text[i] <= '\u{2069}') by {
            assert(shown_character(text[i]));
        }
    }
}

/// The formats of strings are five.
pub proof fn law_string_formats(text: Seq<char>)
    ensures
        is_format(text) <==> text == "date"@ || text == "date-time"@ || text == "email"@ || text == "uri"@ || text
            == "uuid"@,
{
}

/// A literal is written as the JSON value that it is; of an array, value by value.
pub proof fn law_literals_keep_their_value(literal: Literal)
    ensures
        literal matches Literal::Text(text) ==> literal_value(literal) == Ok::<JsonValue, Seq<char>>(JsonValue::Text(text@)),
        literal matches Literal::Bool(flag) ==> literal_value(literal) == Ok::<JsonValue, Seq<char>>(JsonValue::Bool(flag)),
        literal matches Literal::Number(numeric) ==> literal_value(literal) == Ok::<JsonValue, Seq<char>>(
            JsonValue::Number(numeric.number@),
        ),
        literal matches Literal::Array(items) ==> (literal_value(literal) matches Ok(value) ==> (value matches JsonValue::Array(
            values,
        ) && values.len() == items@.len() && forall|i: int|
            0 <= i < values.len() ==> literal_value(#[trigger] items@[i]) == Ok::<JsonValue, Seq<char>>(values[i]))),
        literal is Word || literal is Other || literal is OtherLiteral ==> literal_value(literal) is Err,
{
    if let Literal::Array(items) = literal {
        lemma_first_values(items, items@.len());
    }
}

proof fn lemma_first_values(items: Vec<Literal>, end: nat)
    requires
        end <= items@.len(),
    ensures
        first_values(items, end) matches Ok(values) ==> values.len() == end && forall|i: int|
            0 <= i < end ==> literal_value(#[trigger] items@[i]) == Ok::<JsonValue, Seq<char>>(values[i]),
    decreases end,
{
    if end > 0 {
        lemma_first_values(items, (end - 1) as nat);
    }
}

/// The path of a crate is one that parses; one of more than forty characters is made of
/// letters, digits, underscores, colons and spaces.
pub proof fn law_paths_of_crates(text: Seq<char>)
    ensures
        text.len() <= 40 ==> is_crate_path(text) == path_parses(text),
        text.len() > 40 ==> (is_crate_path(text) <==> path_parses(text) && forall|i: int|
            0 <= i < text.len() ==> 'a' <= #[trigger] text[i] <= 'z' || 'A' <= text[i] <= 'Z' || '0' <= text[i] <= '9'
                || text[i] == '_' || text[i] == ':' || text[i] == ' '),
{
    assert forall|i: int| 0 <= i < text.len() implies is_path_character(#[trigger] text[i]) == ('a' <= text[i] <= 'z' || 'A'
        <= text[i] <= 'Z' || '0' <= text[i] <= '9' || text[i] == '_' || text[i] == ':' || text[i] == ' ') by {}
}

} // verus!
