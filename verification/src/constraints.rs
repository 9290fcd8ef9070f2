//! What `#[schema(..)]` demands of a value.

use vstd::prelude::*;
use vstd::string::*;

use crate::attributes::{
    collect_entries, display_words, entries_of, entry_views, format_value, format_words, is_bounded, is_display,
    is_format, literal, literal_rank, literal_value, meta_path, path_value, repeated, repeated_words, text_value,
    validate_text, Attribute, Entry, EntryView, Literal, Meta, MetaValue,
};
use crate::json::{lemma_array, values_of, Json, JsonValue, Number, NumberView};
use crate::text::{
    chars_of, decimal, holds_text, is_whitespace, joined, push_text, same_text, texts, whitespace, write_decimal,
};

verus! {

/// A keyword of a schema, and what it is set to.
pub struct OptionMember {
    pub key: &'static str,
    pub value: Json,
    /// Where the value stands among the floating-point numbers, where it is one.
    pub rank: Option<i64>,
}

/// What a set keyword is.
pub ghost struct MemberView {
    pub key: Seq<char>,
    pub value: JsonValue,
    pub rank: Option<i64>,
}

impl View for OptionMember {
    type V = MemberView;

    open spec fn view(&self) -> MemberView {
        MemberView { key: self.key@, value: self.value@, rank: self.rank }
    }
}

/// What several set keywords are.
pub open spec fn member_views(members: Seq<OptionMember>) -> Seq<MemberView> {
    members.map_values(|member: OptionMember| member@)
}

/// What the attributes of a declaration demand of its schema.
pub struct SchemaOptions {
    /// The keywords in the order in which they are set.
    pub members: Vec<OptionMember>,
    /// The format of an array's items.
    pub item_format: Option<String>,
    /// The path of the SDK.
    pub crate_path: Option<String>,
}

/// What schema options say.
pub ghost struct OptionsView {
    pub members: Seq<MemberView>,
    pub item_format: Option<Seq<char>>,
    pub crate_path: Option<Seq<char>>,
}

impl View for SchemaOptions {
    type V = OptionsView;

    open spec fn view(&self) -> OptionsView {
        OptionsView {
            members: member_views(self.members@),
            item_format: match self.item_format {
                Some(format) => Some(format@),
                None => None,
            },
            crate_path: match self.crate_path {
                Some(path) => Some(path@),
                None => None,
            },
        }
    }
}

/// Options that demand nothing.
pub open spec fn no_options() -> OptionsView {
    OptionsView { members: Seq::empty(), item_format: None, crate_path: None }
}

impl SchemaOptions {
    /// Returns options that demand nothing.
    pub fn none() -> (options: SchemaOptions)
        ensures
            options@ == no_options(),
    {
        let options = SchemaOptions { members: Vec::new(), item_format: None, crate_path: None };
        assert(member_views(options.members@) =~= Seq::empty());
        options
    }
}

/// The keyword of a schema that an option sets.
pub open spec fn keyword_of(name: Seq<char>) -> Option<Seq<char>> {
    if name == "title"@ {
        Some("title"@)
    } else if name == "description"@ {
        Some("description"@)
    } else if name == "min_length"@ {
        Some("minLength"@)
    } else if name == "max_length"@ {
        Some("maxLength"@)
    } else if name == "minimum"@ {
        Some("minimum"@)
    } else if name == "maximum"@ {
        Some("maximum"@)
    } else if name == "min_items"@ {
        Some("minItems"@)
    } else if name == "max_items"@ {
        Some("maxItems"@)
    } else if name == "unique_items"@ {
        Some("uniqueItems"@)
    } else if name == "media_types"@ {
        Some("mediaTypes"@)
    } else if name == "max_bytes"@ {
        Some("maxBytes"@)
    } else {
        None
    }
}

fn keyword(name: &str) -> (key: Option<&'static str>)
    ensures
        match key {
            Some(key) => keyword_of(name@) == Some(key@),
            None => keyword_of(name@) is None,
        },
{
    if same_text(name, "title") {
        Some("title")
    } else if same_text(name, "description") {
        Some("description")
    } else if same_text(name, "min_length") {
        Some("minLength")
    } else if same_text(name, "max_length") {
        Some("maxLength")
    } else if same_text(name, "minimum") {
        Some("minimum")
    } else if same_text(name, "maximum") {
        Some("maximum")
    } else if same_text(name, "min_items") {
        Some("minItems")
    } else if same_text(name, "max_items") {
        Some("maxItems")
    } else if same_text(name, "unique_items") {
        Some("uniqueItems")
    } else if same_text(name, "media_types") {
        Some("mediaTypes")
    } else if same_text(name, "max_bytes") {
        Some("maxBytes")
    } else {
        None
    }
}

/// The words for an option that there is not.
pub open spec fn unknown_option() -> Seq<char> {
    "Supported schema options are `title`, `description`, `format`, `items(format = \"email\")`, `min_length`, `max_length`, `minimum`, `maximum`, `min_items`, `max_items`, `unique_items`, `media_types`, `max_bytes`, and `crate`. Types are derived from Rust types."@
}

/// The least and the greatest value of a keyword that counts.
pub open spec fn count_range(key: Seq<char>) -> Option<(nat, nat)> {
    if key == "maxBytes"@ {
        Some((1, 104_857_600))
    } else if key == "minItems"@ || key == "maxItems"@ {
        Some((0, 100_000))
    } else if key == "minLength"@ || key == "maxLength"@ {
        Some((0, 1_000_000))
    } else {
        None
    }
}

/// The value is a count within a range.
pub open spec fn counts_within(value: JsonValue, range: (nat, nat)) -> bool {
    value matches JsonValue::Number(NumberView::Unsigned(count)) && range.0 <= count <= range.1
}

/// A media type: it has a slash and no white space.
pub open spec fn is_media_type(text: Seq<char>) -> bool {
    text.contains('/') && forall|index: int| 0 <= index < text.len() ==> !whitespace(#[trigger] text[index])
}

/// The value at `index` is a media type that does not stand before.
pub open spec fn new_media_type(values: Seq<JsonValue>, index: int) -> bool {
    &&& values[index] matches JsonValue::Text(text) && is_media_type(text)
    &&& forall|earlier: int| 0 <= earlier < index ==> values[earlier] != values[index]
}

/// What is wrong with the value of a keyword that the option `name` sets, if anything.
pub open spec fn option_fault(key: Seq<char>, name: Seq<char>, literal: Literal, value: JsonValue) -> Option<Seq<char>> {
    if key == "title"@ || key == "description"@ {
        let maximum: nat = if key == "title"@ {
            60
        } else {
            500
        };
        match value {
            JsonValue::Text(text) => if is_display(text, maximum) {
                None
            } else {
                Some(display_words(maximum))
            },
            _ => Some("Schema display text must be a string literal."@),
        }
    } else if key == "uniqueItems"@ {
        if value is Bool {
            None
        } else {
            Some("`unique_items` requires `true` or `false`."@)
        }
    } else if count_range(key) is Some {
        let (minimum, maximum) = count_range(key)->Some_0;
        if counts_within(value, (minimum, maximum)) {
            None
        } else {
            Some(
                "`"@ + name + "` must be an integer from "@ + decimal(minimum) + " through "@ + decimal(maximum) + "."@,
            )
        }
    } else if key == "minimum"@ || key == "maximum"@ {
        if is_bounded(literal) {
            None
        } else {
            Some("Numeric bounds must be finite and within ±(2^53 − 1)."@)
        }
    } else if key == "mediaTypes"@ {
        match value {
            JsonValue::Array(values) => if values.len() > 0 && forall|index: int|
                0 <= index < values.len() ==> #[trigger] new_media_type(values, index) {
                None
            } else {
                Some("Media types must be a non-empty array of unique MIME-type strings."@)
            },
            _ => Some("`media_types` requires an array of MIME-type string literals."@),
        }
    } else {
        None
    }
}

fn media_type(text: &str) -> (valid: bool)
    ensures
        valid == is_media_type(text@),
{
    let characters = chars_of(text);
    let mut slash = false;
    let mut index: usize = 0;
    while index < characters.len()
        invariant
            index <= characters.len(),
            characters@ == text@,
            slash == text@.take(index as int).contains('/'),
            forall|i: int| 0 <= i < index ==> !whitespace(#[trigger] text@[i]),
        decreases characters.len() - index,
    {
        if is_whitespace(characters[index]) {
            assert(whitespace(text@[index as int]));
            return false;
        }
        let ghost next = text@.take(index + 1);
        assert(next =~= text@.take(index as int).push(characters@[index as int]));
        proof {
            if text@.take(index as int).contains('/') {
                let i = choose|i: int| 0 <= i < index && text@.take(index as int)[i] == '/';
                assert(next[i] == '/');
            }
            if next.contains('/') && characters@[index as int] != '/' {
                let i = choose|i: int| 0 <= i < next.len() && next[i] == '/';
                assert(text@.take(index as int)[i] == '/');
            }
            assert(next[index as int] == characters@[index as int]);
        }
        if characters[index] == '/' {
            slash = true;
        }
        index += 1;
    }
    assert(text@.take(text@.len() as int) =~= text@);
    slash
}

fn media_types(values: &Vec<Json>) -> (valid: bool)
    ensures
        valid == (values@.len() > 0 && forall|index: int|
            0 <= index < values@.len() ==> #[trigger] new_media_type(values_of(values@), index)),
{
    let ghost shown = values_of(values@);
    if values.len() == 0 {
        return false;
    }
    let mut index: usize = 0;
    while index < values.len()
        invariant
            index <= values.len(),
            shown == values_of(values@),
            forall|i: int| 0 <= i < index ==> #[trigger] new_media_type(shown, i),
        decreases values.len() - index,
    {
        assert(shown[index as int] == values@[index as int]@);
        let text = match values[index].as_text() {
            Some(text) => text,
            None => {
                assert(!new_media_type(shown, index as int));
                return false;
            },
        };
        if !media_type(text) {
            assert(!new_media_type(shown, index as int));
            return false;
        }
        let mut earlier: usize = 0;
        while earlier < index
            invariant
                earlier <= index < values.len(),
                shown == values_of(values@),
                shown[index as int] == JsonValue::Text(text@),
                forall|i: int| 0 <= i < earlier ==> shown[i] != shown[index as int],
            decreases index - earlier,
        {
            assert(shown[earlier as int] == values@[earlier as int]@);
            if let Some(other) = values[earlier].as_text() {
                if same_text(other, text) {
                    assert(!new_media_type(shown, index as int));
                    return false;
                }
            }
            earlier += 1;
        }
        assert(new_media_type(shown, index as int));
        index += 1;
    }
    true
}

fn range(key: &str) -> (range: Option<(u64, u64)>)
    ensures
        match range {
            Some((minimum, maximum)) => count_range(key@) == Some((minimum as nat, maximum as nat)),
            None => count_range(key@) is None,
        },
{
    if same_text(key, "maxBytes") {
        Some((1, 104_857_600))
    } else if same_text(key, "minItems") || same_text(key, "maxItems") {
        Some((0, 100_000))
    } else if same_text(key, "minLength") || same_text(key, "maxLength") {
        Some((0, 1_000_000))
    } else {
        None
    }
}

fn bounded(literal: &Literal) -> (result: bool)
    ensures
        result == is_bounded(*literal),
{
    match literal {
        Literal::Number(numeric) => numeric.bounded,
        Literal::Negative(_, Some(numeric)) => numeric.bounded,
        _ => false,
    }
}

/// Checks the value of a keyword that the option `name` sets.
pub fn validate_option(key: &str, name: &str, literal: &Literal, value: &Json) -> (valid: Result<(), String>)
    ensures
        match option_fault(key@, name@, *literal, value@) {
            None => valid == Ok::<(), String>(()),
            Some(words) => valid matches Err(message) && message@ == words,
        },
{
    if same_text(key, "title") || same_text(key, "description") {
        return match value.as_text() {
            Some(text) => validate_text(
                text,
                if same_text(key, "title") {
                    60
                } else {
                    500
                },
            ),
            None => Err("Schema display text must be a string literal.".to_owned()),
        };
    }
    if same_text(key, "uniqueItems") {
        return match value {
            Json::Bool(_) => Ok(()),
            _ => Err("`unique_items` requires `true` or `false`.".to_owned()),
        };
    }
    if let Some((minimum, maximum)) = range(key) {
        let counted = match value.as_number() {
            Some(count) => minimum <= count && count <= maximum,
            None => false,
        };
        if counted {
            return Ok(());
        }
        let mut message = joined("`", name);
        push_text(&mut message, "` must be an integer from ");
        push_text(&mut message, write_decimal(minimum).as_str());
        push_text(&mut message, " through ");
        push_text(&mut message, write_decimal(maximum).as_str());
        push_text(&mut message, ".");
        return Err(message);
    }
    if same_text(key, "minimum") || same_text(key, "maximum") {
        return if bounded(literal) {
            Ok(())
        } else {
            Err("Numeric bounds must be finite and within ±(2^53 − 1).".to_owned())
        };
    }
    if same_text(key, "mediaTypes") {
        return match value {
            Json::Array(values) => {
                proof {
                    lemma_array(*values);
                }
                if media_types(values) {
                    Ok(())
                } else {
                    Err("Media types must be a non-empty array of unique MIME-type strings.".to_owned())
                }
            },
            _ => Err("`media_types` requires an array of MIME-type string literals.".to_owned()),
        };
    }
    Ok(())
}

/// What an entry of `items(..)` makes of the options, or what is wrong with it.
pub open spec fn item_step(options: OptionsView, meta: Meta) -> Result<OptionsView, Seq<char>> {
    if !(meta.name matches Some(name) && name@ == "format"@) {
        Err("Use `items(format = \"email\")` to declare an array's string format."@)
    } else if options.item_format is Some {
        Err(repeated_words("format"@))
    } else {
        match text_value(meta.value) {
            Err(words) => Err(words),
            Ok(text) => if is_format(text) {
                Ok(OptionsView { item_format: Some(text), ..options })
            } else {
                Err(format_words())
            },
        }
    }
}

/// What the entries of `items(..)` from `index` on make of the options.
pub open spec fn items_from(options: OptionsView, metas: Seq<Meta>, index: int) -> Result<OptionsView, Seq<char>>
    decreases metas.len() - index,
{
    if index < 0 || index >= metas.len() {
        Ok(options)
    } else {
        match item_step(options, metas[index]) {
            Err(words) => Err(words),
            Ok(next) => items_from(next, metas, index + 1),
        }
    }
}

/// What the option `name` makes of the options, or what is wrong with it.
pub open spec fn option_step(options: OptionsView, name: Seq<char>, value: MetaValue) -> Result<OptionsView, Seq<char>> {
    if name == "crate"@ {
        match path_value(value) {
            Err(words) => Err(words),
            Ok(path) => Ok(OptionsView { crate_path: Some(path), ..options }),
        }
    } else if name == "format"@ {
        match text_value(value) {
            Err(words) => Err(words),
            Ok(text) => if is_format(text) {
                Ok(
                    OptionsView {
                        members: options.members.push(
                            MemberView { key: "format"@, value: JsonValue::Text(text), rank: None },
                        ),
                        ..options
                    },
                )
            } else {
                Err(format_words())
            },
        }
    } else if name == "items"@ {
        match value {
            MetaValue::List(metas) => items_from(options, metas@, 0),
            _ => Err("expected parentheses"@),
        }
    } else {
        match keyword_of(name) {
            None => Err(unknown_option()),
            Some(key) => match value {
                MetaValue::Equals(literal) => match literal_value(literal) {
                    Err(words) => Err(words),
                    Ok(value) => match option_fault(key, name, literal, value) {
                        Some(words) => Err(words),
                        None => Ok(
                            OptionsView {
                                members: options.members.push(
                                    MemberView { key, value, rank: literal_rank(literal) },
                                ),
                                ..options
                            },
                        ),
                    },
                },
                _ => Err("expected `=`"@),
            },
        }
    }
}

/// What the entries from `index` on make of the options; `names` are those set before.
pub open spec fn options_from(
    options: OptionsView,
    names: Seq<Seq<char>>,
    entries: Seq<EntryView>,
    index: int,
) -> Result<OptionsView, Seq<char>>
    decreases entries.len() - index,
{
    if index < 0 || index >= entries.len() {
        Ok(options)
    } else {
        match entries[index] {
            EntryView::Broken(words) => Err(words),
            EntryView::Meta(meta) => match meta.name {
                None => Err("Use a supported schema keyword."@),
                Some(name) => if names.contains(name@) {
                    Err(repeated_words(name@))
                } else {
                    match option_step(options, name@, meta.value) {
                        Err(words) => Err(words),
                        Ok(next) => options_from(next, names.push(name@), entries, index + 1),
                    }
                },
            },
        }
    }
}

/// The first member of a key, from `index` on.
pub open spec fn member_from(members: Seq<MemberView>, key: Seq<char>, index: int) -> Option<MemberView>
    decreases members.len() - index,
{
    if index < 0 || index >= members.len() {
        None
    } else if members[index].key == key {
        Some(members[index])
    } else {
        member_from(members, key, index + 1)
    }
}

/// The keyword `low` is set to more than the keyword `high`.
pub open spec fn exceeds(options: OptionsView, low: Seq<char>, high: Seq<char>) -> bool {
    match (member_from(options.members, low, 0), member_from(options.members, high, 0)) {
        (Some(left), Some(right)) => match (left.rank, right.rank) {
            (Some(left), Some(right)) => left > right,
            _ => false,
        },
        _ => false,
    }
}

/// The words for a lower bound above its upper bound.
pub open spec fn exceeds_words(low: Seq<char>, high: Seq<char>) -> Seq<char> {
    "`"@ + low + "` must not exceed `"@ + high + "`."@
}

/// What the `schema` attributes of a declaration say, or what is wrong with them.
pub open spec fn options_of(attributes: Seq<Attribute>) -> Result<OptionsView, Seq<char>> {
    match options_from(
        no_options(),
        Seq::empty(),
        entries_of(attributes, "schema"@, attributes.len() as int),
        0,
    ) {
        Err(words) => Err(words),
        Ok(options) => if exceeds(options, "minLength"@, "maxLength"@) {
            Err(exceeds_words("minLength"@, "maxLength"@))
        } else if exceeds(options, "minItems"@, "maxItems"@) {
            Err(exceeds_words("minItems"@, "maxItems"@))
        } else if exceeds(options, "minimum"@, "maximum"@) {
            Err(exceeds_words("minimum"@, "maximum"@))
        } else {
            Ok(options)
        },
    }
}

impl SchemaOptions {
    /// Returns the position of the first member of a key.
    pub fn find(&self, key: &str) -> (found: Option<usize>)
        ensures
            match found {
                Some(index) => index < self.members@.len() && member_from(self@.members, key@, 0) == Some(
                    self.members@[index as int]@,
                ),
                None => member_from(self@.members, key@, 0) is None,
            },
    {
        let ghost shown = self@.members;
        let mut index: usize = 0;
        while index < self.members.len()
            invariant
                index <= self.members.len(),
                shown == member_views(self.members@),
                member_from(shown, key@, 0) == member_from(shown, key@, index as int),
            decreases self.members.len() - index,
        {
            assert(shown[index as int] == self.members@[index as int]@);
            if same_text(self.members[index].key, key) {
                return Some(index);
            }
            index += 1;
        }
        assert(shown.len() == self.members@.len());
        None
    }

    fn exceeds_bound(&self, low: &str, high: &str) -> (found: bool)
        ensures
            found == exceeds(self@, low@, high@),
    {
        match (self.find(low), self.find(high)) {
            (Some(left), Some(right)) => match (self.members[left].rank, self.members[right].rank) {
                (Some(left), Some(right)) => left > right,
                _ => false,
            },
            _ => false,
        }
    }

    fn set(&mut self, key: &'static str, value: Json, rank: Option<i64>)
        ensures
            final(self)@ == (OptionsView {
                members: old(self)@.members.push(MemberView { key: key@, value: value@, rank }),
                ..old(self)@
            }),
    {
        let ghost before = self.members@;
        self.members.push(OptionMember { key, value, rank });
        assert(member_views(self.members@) =~= member_views(before).push(self.members@.last()@));
    }
}

fn rank(literal: &Literal) -> (rank: Option<i64>)
    ensures
        rank == literal_rank(*literal),
{
    match literal {
        Literal::Number(numeric) => Some(numeric.rank),
        Literal::Negative(_, Some(numeric)) => Some(numeric.rank),
        _ => None,
    }
}

fn apply_items(options: &mut SchemaOptions, metas: &Vec<Meta>) -> (applied: Result<(), String>)
    ensures
        match items_from(old(options)@, metas@, 0) {
            Ok(expected) => applied == Ok::<(), String>(()) && final(options)@ == expected,
            Err(words) => applied matches Err(message) && message@ == words,
        },
{
    let ghost outcome = items_from(options@, metas@, 0);
    let mut index: usize = 0;
    while index < metas.len()
        invariant
            index <= metas.len(),
            outcome == items_from(old(options)@, metas@, 0),
            outcome == items_from(options@, metas@, index as int),
        decreases metas.len() - index,
    {
        let meta = &metas[index];
        let named = match &meta.name {
            Some(name) => same_text(name.as_str(), "format"),
            None => false,
        };
        if !named {
            return Err("Use `items(format = \"email\")` to declare an array's string format.".to_owned());
        }
        if options.item_format.is_some() {
            return Err(repeated("format"));
        }
        match format_value(&meta.value) {
            Ok(format) => {
                options.item_format = Some(format.to_owned());
            },
            Err(message) => return Err(message),
        }
        index += 1;
    }
    Ok(())
}

fn apply_option(options: &mut SchemaOptions, name: &str, value: &MetaValue) -> (applied: Result<(), String>)
    ensures
        match option_step(old(options)@, name@, *value) {
            Ok(expected) => applied == Ok::<(), String>(()) && final(options)@ == expected,
            Err(words) => applied matches Err(message) && message@ == words,
        },
{
    if same_text(name, "crate") {
        return match meta_path(value) {
            Ok(path) => {
                options.crate_path = Some(path);
                Ok(())
            },
            Err(message) => Err(message),
        };
    }
    if same_text(name, "format") {
        return match format_value(value) {
            Ok(format) => {
                options.set("format", Json::Text(format.to_owned()), None);
                Ok(())
            },
            Err(message) => Err(message),
        };
    }
    if same_text(name, "items") {
        return match value {
            MetaValue::List(metas) => apply_items(options, metas),
            _ => Err("expected parentheses".to_owned()),
        };
    }
    let key = match keyword(name) {
        Some(key) => key,
        None => return Err(
            "Supported schema options are `title`, `description`, `format`, `items(format = \"email\")`, `min_length`, `max_length`, `minimum`, `maximum`, `min_items`, `max_items`, `unique_items`, `media_types`, `max_bytes`, and `crate`. Types are derived from Rust types.".to_owned(),
        ),
    };
    let written = match value {
        MetaValue::Equals(written) => written,
        _ => return Err("expected `=`".to_owned()),
    };
    let json = match literal(written) {
        Ok(json) => json,
        Err(message) => return Err(message),
    };
    match validate_option(key, name, written, &json) {
        Ok(_) => {},
        Err(message) => return Err(message),
    }
    options.set(key, json, rank(written));
    Ok(())
}

/// Reads the `schema` attributes of a declaration.
pub fn options(attributes: &Vec<Attribute>) -> (options: Result<SchemaOptions, String>)
    ensures
        match options_of(attributes@) {
            Ok(expected) => options matches Ok(options) && options@ == expected,
            Err(words) => options matches Err(message) && message@ == words,
        },
{
    let entries = collect_entries(attributes, "schema");
    let ghost shown = entry_views(entries@);
    let mut result = SchemaOptions::none();
    let mut names: Vec<String> = Vec::new();
    let ghost outcome = options_from(no_options(), Seq::empty(), shown, 0);
    let mut index: usize = 0;
    assert(texts(names@) =~= Seq::empty());
    while index < entries.len()
        invariant
            index <= entries.len(),
            shown == entry_views(entries@),
            shown == entries_of(attributes@, "schema"@, attributes@.len() as int),
            outcome == options_from(no_options(), Seq::empty(), shown, 0),
            outcome == options_from(result@, texts(names@), shown, index as int),
        decreases entries.len() - index,
    {
        assert(shown[index as int] == entries@[index as int]@);
        let meta = match &entries[index] {
            Entry::Meta(meta) => *meta,
            Entry::Broken(words) => return Err((*words).to_owned()),
        };
        let name = match &meta.name {
            Some(name) => name,
            None => return Err("Use a supported schema keyword.".to_owned()),
        };
        if holds_text(&names, name.as_str()) {
            return Err(repeated(name.as_str()));
        }
        match apply_option(&mut result, name.as_str(), &meta.value) {
            Ok(_) => {},
            Err(message) => return Err(message),
        }
        let ghost before = names@;
        names.push(name.clone());
        assert(texts(names@) =~= texts(before).push(name@));
        index += 1;
    }
    assert(shown.len() == entries@.len());
    if result.exceeds_bound("minLength", "maxLength") {
        return Err(write_exceeds("minLength", "maxLength"));
    }
    if result.exceeds_bound("minItems", "maxItems") {
        return Err(write_exceeds("minItems", "maxItems"));
    }
    if result.exceeds_bound("minimum", "maximum") {
        return Err(write_exceeds("minimum", "maximum"));
    }
    Ok(result)
}

fn write_exceeds(low: &str, high: &str) -> (words: String)
    ensures
        words@ == exceeds_words(low@, high@),
{
    let mut words = joined("`", low);
    push_text(&mut words, "` must not exceed `");
    push_text(&mut words, high);
    push_text(&mut words, "`.");
    words
}

/// The option `name` sets the keyword `key`: its words, the later ones begun with a capital
/// letter.
pub open spec fn is_keyword(name: Seq<char>, key: Seq<char>) -> bool {
    ||| name == "title"@ && key == "title"@
    ||| name == "description"@ && key == "description"@
    ||| name == "minimum"@ && key == "minimum"@
    ||| name == "maximum"@ && key == "maximum"@
    ||| name == "min_length"@ && key == "minLength"@
    ||| name == "max_length"@ && key == "maxLength"@
    ||| name == "min_items"@ && key == "minItems"@
    ||| name == "max_items"@ && key == "maxItems"@
    ||| name == "unique_items"@ && key == "uniqueItems"@
    ||| name == "media_types"@ && key == "mediaTypes"@
    ||| name == "max_bytes"@ && key == "maxBytes"@
}

proof fn lemma_names_differ()
    ensures
        forall|name: Seq<char>, left: Seq<char>, right: Seq<char>|
            is_keyword(name, left) && is_keyword(name, right) ==> left == right,
        forall|name: Seq<char>, key: Seq<char>| #[trigger]
            is_keyword(name, key) ==> name != "crate"@ && name != "format"@ && name != "items"@,
        forall|name: Seq<char>, key: Seq<char>| #[trigger]
            is_keyword(name, key) <==> keyword_of(name) == Some(key),
        "crate"@ != "format"@ && "items"@ != "format"@ && "crate"@ != "items"@,
{
    reveal_strlit("title");
    reveal_strlit("description");
    reveal_strlit("minimum");
    reveal_strlit("maximum");
    reveal_strlit("min_length");
    reveal_strlit("max_length");
    reveal_strlit("min_items");
    reveal_strlit("max_items");
    reveal_strlit("unique_items");
    reveal_strlit("media_types");
    reveal_strlit("max_bytes");
    reveal_strlit("crate");
    reveal_strlit("format");
    reveal_strlit("items");
    assert("title"@.len() == 5);
    assert("description"@.len() == 11);
    assert("minimum"@.len() == 7);
    assert("maximum"@.len() == 7);
    assert("min_length"@.len() == 10);
    assert("max_length"@.len() == 10);
    assert("min_items"@.len() == 9);
    assert("max_items"@.len() == 9);
    assert("unique_items"@.len() == 12);
    assert("media_types"@.len() == 11);
    assert("max_bytes"@.len() == 9);
    assert("crate"@.len() == 5);
    assert("format"@.len() == 6);
    assert("items"@.len() == 5);
    assert("minimum"@[1] != "maximum"@[1]);
    assert("min_length"@[1] != "max_length"@[1]);
    assert("min_items"@[1] != "max_items"@[1]);
    assert("min_items"@[2] != "max_bytes"@[2]);
    assert("max_items"@[4] != "max_bytes"@[4]);
    assert("title"@[0] != "crate"@[0]);
    assert("title"@[0] != "items"@[0]);
    assert("crate"@[0] != "items"@[0]);
    assert("media_types"@[0] != "description"@[0]);
}

/// An option sets the keyword that is named as it is, and no other.
pub proof fn law_options_set_their_keyword(name: Seq<char>, key: Seq<char>)
    ensures
        keyword_of(name) == Some(key) <==> is_keyword(name, key),
{
    lemma_names_differ();
}

proof fn lemma_keys_differ()
    ensures
        "title"@.len() == 5 && "description"@.len() == 11 && "uniqueItems"@.len() == 11 && "maxBytes"@.len() == 8,
        "minItems"@.len() == 8 && "maxItems"@.len() == 8 && "minLength"@.len() == 9 && "maxLength"@.len() == 9,
        "minimum"@.len() == 7 && "maximum"@.len() == 7 && "mediaTypes"@.len() == 10,
        "description"@ != "uniqueItems"@ && "maxBytes"@ != "minItems"@ && "maxBytes"@ != "maxItems"@,
        "minItems"@ != "maxItems"@ && "minLength"@ != "maxLength"@ && "minimum"@ != "maximum"@,
{
    reveal_strlit("title");
    reveal_strlit("description");
    reveal_strlit("uniqueItems");
    reveal_strlit("maxBytes");
    reveal_strlit("minItems");
    reveal_strlit("maxItems");
    reveal_strlit("minLength");
    reveal_strlit("maxLength");
    reveal_strlit("minimum");
    reveal_strlit("maximum");
    reveal_strlit("mediaTypes");
    assert("description"@[0] != "uniqueItems"@[0]);
    assert("maxBytes"@[1] != "minItems"@[1]);
    assert("maxBytes"@[3] != "maxItems"@[3]);
    assert("minItems"@[1] != "maxItems"@[1]);
    assert("minLength"@[1] != "maxLength"@[1]);
    assert("minimum"@[1] != "maximum"@[1]);
}

/// A size in bytes is accepted from one through a hundred mebibytes, a number of items
/// through a hundred thousand and a length through a million, and nothing but a count.
pub proof fn law_counts_are_bounded(key: Seq<char>, name: Seq<char>, literal: Literal, value: JsonValue)
    ensures
        key == "maxBytes"@ ==> (option_fault(key, name, literal, value) is None <==> (value matches JsonValue::Number(
            NumberView::Unsigned(count),
        ) && 1 <= count <= 104_857_600)),
        key == "minItems"@ || key == "maxItems"@ ==> (option_fault(key, name, literal, value) is None <==> (
        value matches JsonValue::Number(NumberView::Unsigned(count)) && count <= 100_000)),
        key == "minLength"@ || key == "maxLength"@ ==> (option_fault(key, name, literal, value) is None <==> (
        value matches JsonValue::Number(NumberView::Unsigned(count)) && count <= 1_000_000)),
{
    lemma_keys_differ();
}

/// Texts to show are bounded, flags are flags, and the bounds of a number are within the
/// range of exact integers.
pub proof fn law_option_values(key: Seq<char>, name: Seq<char>, literal: Literal, value: JsonValue)
    ensures
        key == "title"@ ==> (option_fault(key, name, literal, value) is None <==> (value matches JsonValue::Text(text)
            && is_display(text, 60))),
        key == "description"@ ==> (option_fault(key, name, literal, value) is None <==> (value matches JsonValue::Text(
            text,
        ) && is_display(text, 500))),
        key == "uniqueItems"@ ==> (option_fault(key, name, literal, value) is None <==> value is Bool),
        key == "minimum"@ || key == "maximum"@ ==> (option_fault(key, name, literal, value) is None <==> (match literal {
            Literal::Number(numeric) => numeric.bounded,
            Literal::Negative(_, Some(numeric)) => numeric.bounded,
            _ => false,
        })),
{
    lemma_keys_differ();
}

/// The value names a media type: a text with a slash and without white space.
pub open spec fn names_media_type(value: JsonValue) -> bool {
    &&& value is Text
    &&& value->Text_0.contains('/')
    &&& forall|i: int| 0 <= i < value->Text_0.len() ==> !whitespace(#[trigger] value->Text_0[i])
}

/// Media types are accepted where there is one at least, each is a text with a slash and
/// without white space, and no two are the same.
pub proof fn law_media_types(name: Seq<char>, literal: Literal, value: JsonValue)
    ensures
        option_fault("mediaTypes"@, name, literal, value) is None <==> {
            &&& value is Array
            &&& value->Array_0.len() > 0
            &&& forall|i: int| 0 <= i < value->Array_0.len() ==> names_media_type(#[trigger] value->Array_0[i])
            &&& forall|i: int, j: int|
                0 <= i < j < value->Array_0.len() ==> #[trigger] value->Array_0[i] != #[trigger] value->Array_0[j]
        },
{
    lemma_keys_differ();
    if let JsonValue::Array(values) = value {
        if forall|i: int| 0 <= i < values.len() ==> #[trigger] new_media_type(values, i) {
            assert forall|i: int| 0 <= i < values.len() implies names_media_type(#[trigger] values[i]) by {
                assert(new_media_type(values, i));
            }
            assert forall|i: int, j: int| 0 <= i < j < values.len() implies #[trigger] values[i] != #[trigger] values[j] by {
                assert(new_media_type(values, j));
            }
        }
        if (forall|i: int| 0 <= i < values.len() ==> names_media_type(#[trigger] values[i])) && (forall|i: int, j: int|
            0 <= i < j < values.len() ==> #[trigger] values[i] != #[trigger] values[j]) {
            assert forall|i: int| 0 <= i < values.len() implies #[trigger] new_media_type(values, i) by {
                assert(names_media_type(values[i]));
            }
        }
    }
}

/// The entry sets the keyword of a member to its literal.
pub open spec fn sets(entry: EntryView, member: MemberView) -> bool {
    &&& entry matches EntryView::Meta(meta)
    &&& meta.name matches Some(name)
    &&& meta.value matches MetaValue::Equals(literal)
    &&& is_keyword(name@, member.key) || (name@ == "format"@ && member.key == "format"@)
    &&& literal_value(literal) == Ok::<JsonValue, Seq<char>>(member.value)
    &&& literal_rank(literal) == member.rank
}

/// The entry is named `crate` or `items`, and sets no keyword.
pub open spec fn sets_nothing(entry: EntryView) -> bool {
    entry matches EntryView::Meta(meta) && (meta.name matches Some(name) && (name@ == "crate"@ || name@ == "items"@))
}

/// An entry sets the member, or one of the members does what the entry says.
pub open spec fn is_set_in(entries: Seq<EntryView>, start: int, member: MemberView) -> bool {
    exists|i: int| start <= i < entries.len() && sets(#[trigger] entries[i], member)
}

/// A member from `start` on is what the entry sets.
pub open spec fn is_member_in(members: Seq<MemberView>, start: int, entry: EntryView) -> bool {
    exists|i: int| start <= i < members.len() && sets(entry, #[trigger] members[i])
}

proof fn lemma_items_keep_members(options: OptionsView, metas: Seq<Meta>, index: int)
    ensures
        items_from(options, metas, index) matches Ok(result) ==> result.members == options.members && result.crate_path
            == options.crate_path,
    decreases metas.len() - index,
{
    if 0 <= index < metas.len() {
        if let Ok(next) = item_step(options, metas[index]) {
            lemma_items_keep_members(next, metas, index + 1);
        }
    }
}

/// Accepted options hold every keyword that an entry sets, with the value of its literal,
/// and no keyword that no entry sets; no option is set twice.
pub proof fn law_set_options_are_kept(
    options: OptionsView,
    names: Seq<Seq<char>>,
    entries: Seq<EntryView>,
    index: int,
)
    requires
        0 <= index,
    ensures
        options_from(options, names, entries, index) matches Ok(result) ==> {
            &&& options.members.is_prefix_of(result.members)
            &&& forall|i: int|
                options.members.len() <= i < result.members.len() ==> is_set_in(entries, index, #[trigger] result.members[i])
            &&& forall|i: int|
                index <= i < entries.len() && !sets_nothing(#[trigger] entries[i]) ==> is_member_in(
                    result.members,
                    options.members.len() as int,
                    entries[i],
                )
        },
        options_from(options, names, entries, index) is Ok ==> forall|i: int|
            index <= i < entries.len() ==> (#[trigger] entries[i] matches EntryView::Meta(meta) && (
            meta.name matches Some(name) && !names.contains(name@))),
    decreases entries.len() - index,
{
    lemma_names_differ();
    if index < entries.len() {
        let outcome = options_from(options, names, entries, index);
        if outcome is Ok {
            let result = outcome->Ok_0;
            let meta = entries[index]->Meta_0;
            let name = meta.name->Some_0;
            let next = option_step(options, name@, meta.value)->Ok_0;
            let later = names.push(name@);
            law_set_options_are_kept(next, later, entries, index + 1);
            assert(outcome == options_from(next, later, entries, index + 1));
            if name@ == "items"@ {
                if let MetaValue::List(metas) = meta.value {
                    lemma_items_keep_members(options, metas@, 0);
                }
            }
            assert forall|i: int| index <= i < entries.len() implies (#[trigger] entries[i] matches EntryView::Meta(meta)
                && (meta.name matches Some(name) && !names.contains(name@))) by {
                if i > index {
                    let other = entries[i]->Meta_0.name->Some_0@;
                    assert(!later.contains(other));
                    if names.contains(other) {
                        let at = choose|at: int| 0 <= at < names.len() && names[at] == other;
                        assert(later[at] == other);
                    }
                }
            }
            if sets_nothing(entries[index]) {
                assert(next.members == options.members);
            } else {
                assert(next.members.drop_last() =~= options.members);
                assert(sets(entries[index], next.members.last()));
                assert(result.members[options.members.len() as int] == next.members.last());
            }
            assert forall|i: int| options.members.len() <= i < result.members.len() implies is_set_in(
                entries,
                index,
                #[trigger] result.members[i],
            ) by {
                if i < next.members.len() {
                    assert(sets(entries[index], result.members[i]));
                } else {
                    assert(is_set_in(entries, index + 1, result.members[i]));
                }
            }
            assert forall|i: int| index <= i < entries.len() && !sets_nothing(#[trigger] entries[i]) implies is_member_in(
                result.members,
                options.members.len() as int,
                entries[i],
            ) by {
                if i == index {
                    assert(sets(entries[i], result.members[options.members.len() as int]));
                } else {
                    assert(is_member_in(result.members, next.members.len() as int, entries[i]));
                }
            }
        }
    }
}

/// The member at `index` is the first of its key.
pub open spec fn is_first_of(members: Seq<MemberView>, index: int, key: Seq<char>) -> bool {
    &&& 0 <= index < members.len()
    &&& members[index].key == key
    &&& forall|earlier: int| 0 <= earlier < index ==> (#[trigger] members[earlier]).key != key
}

proof fn lemma_first_of(members: Seq<MemberView>, index: int, key: Seq<char>, from: int)
    requires
        is_first_of(members, index, key),
        0 <= from <= index,
    ensures
        member_from(members, key, from) == Some(members[index]),
    decreases index - from,
{
    if from < index {
        assert(members[from].key != key);
        lemma_first_of(members, index, key, from + 1);
    }
}

/// The pairs of keywords that bound the same thing from below and from above.
pub open spec fn are_bounds(low: Seq<char>, high: Seq<char>) -> bool {
    ||| low == "minLength"@ && high == "maxLength"@
    ||| low == "minItems"@ && high == "maxItems"@
    ||| low == "minimum"@ && high == "maximum"@
}

/// In accepted options a lower bound never stands above the upper bound.
pub proof fn law_bounds_are_ordered(attributes: Seq<Attribute>, low: Seq<char>, high: Seq<char>, left: int, right: int)
    requires
        are_bounds(low, high),
    ensures
        options_of(attributes) is Ok ==> {
            let members = options_of(attributes)->Ok_0.members;
            is_first_of(members, left, low) && is_first_of(members, right, high) && members[left].rank is Some
                && members[right].rank is Some ==> members[left].rank->0 <= members[right].rank->0
        },
{
    if let Ok(options) = options_of(attributes) {
        if is_first_of(options.members, left, low) && is_first_of(options.members, right, high) {
            lemma_first_of(options.members, left, low, 0);
            lemma_first_of(options.members, right, high, 0);
            assert(!exceeds(options, low, high));
        }
    }
}

/// The entry has a name.
pub open spec fn is_named(meta: Meta, name: Seq<char>) -> bool {
    meta.name matches Some(own) && own@ == name
}

/// Options that were read are refused only where a lower bound stands above its upper bound.
pub proof fn law_ordered_bounds_are_accepted(attributes: Seq<Attribute>, said: OptionsView)
    requires
        options_from(
            no_options(),
            Seq::empty(),
            entries_of(attributes, "schema"@, attributes.len() as int),
            0,
        ) == Ok::<OptionsView, Seq<char>>(said),
    ensures
        options_of(attributes) is Ok ==> options_of(attributes) == Ok::<OptionsView, Seq<char>>(said),
        options_of(attributes) is Err ==> exists|left: int, right: int|
            0 <= left < said.members.len() && 0 <= right < said.members.len() && are_bounds(
                (#[trigger] said.members[left]).key,
                (#[trigger] said.members[right]).key,
            ) && said.members[left].rank is Some && said.members[right].rank is Some && said.members[left].rank->0
                > said.members[right].rank->0,
{
    if options_of(attributes) is Err {
        let (low, high) = if exceeds(said, "minLength"@, "maxLength"@) {
            ("minLength"@, "maxLength"@)
        } else if exceeds(said, "minItems"@, "maxItems"@) {
            ("minItems"@, "maxItems"@)
        } else {
            ("minimum"@, "maximum"@)
        };
        assert(exceeds(said, low, high));
        let left = lemma_found_member(said.members, low, 0);
        let right = lemma_found_member(said.members, high, 0);
        assert(are_bounds(said.members[left].key, said.members[right].key));
    }
}

proof fn lemma_found_member(members: Seq<MemberView>, key: Seq<char>, from: int) -> (index: int)
    requires
        0 <= from,
        member_from(members, key, from) is Some,
    ensures
        from <= index < members.len(),
        members[index].key == key,
        member_from(members, key, from) == Some(members[index]),
    decreases members.len() - from,
{
    if members[from].key == key {
        from
    } else {
        lemma_found_member(members, key, from + 1)
    }
}

/// `items(format = ..)` sets the format of an array's items and nothing else, and `crate`
/// sets the path of the SDK and nothing else.
pub proof fn law_options_beside_keywords(options: OptionsView, name: Seq<char>, value: MetaValue)
    ensures
        name == "crate"@ ==> match (path_value(value), option_step(options, name, value)) {
            (Ok(path), Ok(next)) => next.crate_path == Some(path) && next.members == options.members && next.item_format
                == options.item_format,
            (Err(words), Err(fault)) => words == fault,
            _ => false,
        },
        name == "items"@ ==> (option_step(options, name, value) matches Ok(next) ==> next.members == options.members
            && next.crate_path == options.crate_path),
        name == "items"@ && options.item_format is None && option_step(options, name, value) is Ok ==> {
            let format = option_step(options, name, value)->Ok_0.item_format;
            &&& value is List
            &&& format is None <==> value->List_0@.len() == 0
            &&& format is Some ==> value->List_0@.len() == 1 && is_format(format->0) && text_value(value->List_0@[0].value)
                == Ok::<Seq<char>, Seq<char>>(format->0) && is_named(value->List_0@[0], "format"@)
        },
{
    reveal_strlit("crate");
    reveal_strlit("items");
    reveal_strlit("format");
    assert("crate"@[0] != "items"@[0]);
    if name == "items"@ {
        if let MetaValue::List(metas) = value {
            lemma_items_keep_members(options, metas@, 0);
            reveal_with_fuel(items_from, 3);
        }
    }
}

} // verus!
