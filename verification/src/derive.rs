//! Deriving schemas and resources from declared types.

use vstd::prelude::*;
use vstd::string::*;

use crate::attributes::{
    collect_entries, entries_of, entry_views, is_property, law_no_attributes_say_nothing, meta_text, repeated, repeated_words, serde, serde_of,
    text_value, validate_property, Attribute, Entry, EntryView, Literal, Meta, MetaValue, Owner, Serde, SerdeView,
};
use crate::constraints::{member_from, options, options_of, OptionsView, SchemaOptions};
use crate::identity::{is_label, label};
use crate::json::{json_text, lemma_array, number_in, values_of, write_json, Json, JsonValue};
use crate::naming::{rename, renamed, NameRule};
use crate::schema::{
    all_rules, complete_schema, completed, constraint_checks, extra_members, extras_of, flag_views, is_type, last_type,
    law_only_options_may_be_null,
    piece_views, put, put_all, put_text, shape, shape_of, Flag, FlagView, Kind, KindView, Piece, PieceView, Rule,
    RustType, ShapeView,
};
use crate::text::{byte_count, byte_len, holds_text, same_text, texts};

verus! {

/// A field of a declared type.
pub struct Field {
    pub name: Option<String>,
    pub ty: RustType,
    pub attributes: Vec<Attribute>,
}

/// A variant of a declared enum.
pub struct Variant {
    pub name: String,
    /// It carries no data.
    pub unit: bool,
    pub attributes: Vec<Attribute>,
}

/// What a declared type holds.
pub enum Data {
    /// A struct with named fields.
    Named(Vec<Field>),
    /// A struct with fields by position.
    Tuple(Vec<Field>),
    /// A struct without fields.
    Unit,
    Enumeration(Vec<Variant>),
    Union,
}

/// A declared type.
pub struct Declaration {
    pub name: String,
    /// It has lifetime parameters.
    pub lifetimes: bool,
    /// It has parameters of any kind.
    pub generic: bool,
    pub attributes: Vec<Attribute>,
    pub data: Data,
}

/// What was gathered of an object's fields.
pub struct ObjectParts {
    /// The schemas of the properties, with commas between them.
    pub properties: Vec<Piece>,
    /// The names of the properties.
    pub names: Vec<String>,
    /// The properties that have to be there.
    pub required: Vec<String>,
    /// Whether each property holds a managed source.
    pub sources: Vec<Flag>,
    /// Whether each property takes members that are not declared.
    pub opens: Vec<Flag>,
    /// The object takes members that are not declared.
    pub open: bool,
}

/// What was gathered of an object's fields.
pub ghost struct ObjectView {
    pub properties: Seq<PieceView>,
    pub names: Seq<Seq<char>>,
    pub required: Seq<Seq<char>>,
    pub sources: Seq<FlagView>,
    pub opens: Seq<FlagView>,
    pub open: bool,
}

impl View for ObjectParts {
    type V = ObjectView;

    open spec fn view(&self) -> ObjectView {
        ObjectView {
            properties: piece_views(self.properties@),
            names: texts(self.names@),
            required: texts(self.required@),
            sources: flag_views(self.sources@),
            opens: flag_views(self.opens@),
            open: self.open,
        }
    }
}

/// An object without fields.
pub open spec fn no_fields() -> ObjectView {
    ObjectView {
        properties: Seq::empty(),
        names: Seq::empty(),
        required: Seq::empty(),
        sources: Seq::empty(),
        opens: Seq::empty(),
        open: false,
    }
}

/// The name under which a field or a variant is serialized.
pub open spec fn serialized_name(local: SerdeView, name: Seq<char>, rule: Option<NameRule>, variant: bool) -> Seq<char> {
    match local.rename {
        Some(renaming) => renaming,
        None => renamed(name, rule, variant),
    }
}

fn write_name(local: &Serde, name: &str, rule: Option<NameRule>, variant: bool) -> (text: String)
    ensures
        text@ == serialized_name(local@, name@, rule, variant),
{
    match &local.rename {
        Some(renaming) => renaming.clone(),
        None => rename(name, rule, variant),
    }
}

/// What a field that takes undeclared members makes of its object, or what is wrong with
/// it.
pub open spec fn flattened(object: ObjectView, ty: RustType, local: SerdeView, options: OptionsView) -> Result<
    ObjectView,
    Seq<char>,
> {
    if last_type(ty) != Some("Fields"@) {
        Err("Only `Fields` may use `#[serde(flatten)]`; spell `Fields` directly."@)
    } else if object.open {
        Err("Only one flattened `Fields` property is permitted."@)
    } else if local.default || local.rename is Some || options.members.len() > 0 || options.item_format is Some {
        Err("Flattened `Fields` cannot have schema bounds, a rename, or a default."@)
    } else {
        Ok(ObjectView { open: true, ..object })
    }
}

/// What a property makes of its object.
pub open spec fn with_property(
    object: ObjectView,
    property: Seq<char>,
    shape: ShapeView,
    options: OptionsView,
    required: bool,
) -> ObjectView {
    let separated = if object.names.len() > 0 {
        object.properties.push(PieceView::Text(","@))
    } else {
        object.properties
    };
    ObjectView {
        properties: separated + seq![PieceView::Name(property), PieceView::Text(":"@)] + completed(shape, options),
        names: object.names.push(property),
        required: if required {
            object.required.push(property)
        } else {
            object.required
        },
        sources: object.sources.push(shape.source),
        opens: object.opens.push(shape.open),
        open: object.open,
    }
}

/// What a field makes of the object of `owner`, or what is wrong with it.
pub open spec fn field_step(object: ObjectView, field: Field, owner: Seq<char>, outer: SerdeView) -> Result<
    ObjectView,
    Seq<char>,
> {
    match serde_of(field.attributes@, Owner::Field) {
        Err(words) => Err(words),
        Ok(local) => if local.skip {
            Ok(object)
        } else {
            match field.name {
                None => Err("Schema object properties require named fields."@),
                Some(name) => match options_of(field.attributes@) {
                    Err(words) => Err(words),
                    Ok(options) => if local.flatten {
                        flattened(object, field.ty, local, options)
                    } else {
                        let property = serialized_name(local, name@, outer.rename_all, false);
                        if !is_property(property) {
                            Err(
                                "Serialized property names must match `[A-Za-z_][A-Za-z0-9_]*` and fit 64 characters."@,
                            )
                        } else if object.names.contains(property) {
                            Err("Serialized schema property names must be unique."@)
                        } else {
                            match shape_of(field.ty, owner, options) {
                                Err(words) => Err(words),
                                Ok(shape) => Ok(
                                    with_property(
                                        object,
                                        property,
                                        shape,
                                        options,
                                        !shape.optional && !local.default && !outer.default,
                                    ),
                                ),
                            }
                        }
                    },
                },
            }
        },
    }
}

/// What the first `end` fields make of the object of `owner`, or what is wrong with the
/// first that is wrong.
pub open spec fn fields_before(fields: Seq<Field>, owner: Seq<char>, outer: SerdeView, end: int) -> Result<
    ObjectView,
    Seq<char>,
>
    decreases end,
{
    if end <= 0 {
        Ok(no_fields())
    } else {
        match fields_before(fields, owner, outer, end - 1) {
            Err(words) => Err(words),
            Ok(object) => field_step(object, fields[end - 1], owner, outer),
        }
    }
}

proof fn lemma_first_wrong_field(fields: Seq<Field>, owner: Seq<char>, outer: SerdeView, end: int, later: int)
    requires
        0 <= end <= later,
        fields_before(fields, owner, outer, end) is Err,
    ensures
        fields_before(fields, owner, outer, later) == fields_before(fields, owner, outer, end),
    decreases later - end,
{
    if end < later {
        lemma_first_wrong_field(fields, owner, outer, end, later - 1);
    }
}

/// The definition of a declared type: its schema, in parts.
pub struct Definition {
    pub kind: Kind,
    /// What stands behind the JSON type.
    pub rest: Vec<Piece>,
    /// It holds a managed source where one of these holds.
    pub sources: Vec<Flag>,
    /// It takes members that are not declared where one of these holds.
    pub opens: Vec<Flag>,
}

/// What the definition of a declared type is.
pub ghost struct DefinitionView {
    pub kind: KindView,
    pub rest: Seq<PieceView>,
    pub sources: Seq<FlagView>,
    pub opens: Seq<FlagView>,
}

impl View for Definition {
    type V = DefinitionView;

    open spec fn view(&self) -> DefinitionView {
        DefinitionView {
            kind: self.kind@,
            rest: piece_views(self.rest@),
            sources: flag_views(self.sources@),
            opens: flag_views(self.opens@),
        }
    }
}

/// Texts as JSON.
pub open spec fn text_values(names: Seq<Seq<char>>) -> JsonValue {
    JsonValue::Array(names.map_values(|name: Seq<char>| JsonValue::Text(name)))
}

fn write_texts(names: &Vec<String>) -> (text: String)
    ensures
        text@ == json_text(text_values(texts(names@))),
{
    let mut items: Vec<Json> = Vec::new();
    let mut index: usize = 0;
    while index < names.len()
        invariant
            index <= names.len(),
            items@.len() == index,
            forall|i: int| 0 <= i < index ==> (#[trigger] items@[i])@ == JsonValue::Text(names@[i]@),
        decreases names.len() - index,
    {
        items.push(Json::Text(names[index].clone()));
        index += 1;
    }
    proof {
        lemma_array(items);
        assert(values_of(items@) =~= text_values(texts(names@))->Array_0);
    }
    write_json(&Json::Array(items))
}

/// The definition of an object.
pub open spec fn object_definition(object: ObjectView, options: OptionsView) -> DefinitionView {
    DefinitionView {
        kind: KindView::Known("object"@),
        rest: seq![PieceView::Text(",\"properties\":{"@)] + object.properties + seq![
            PieceView::Text("},\"required\":"@),
            PieceView::Text(json_text(text_values(object.required))),
            PieceView::Text(",\"additionalProperties\":"@),
            PieceView::Text(
                if object.open {
                    "true"@
                } else {
                    "false"@
                },
            ),
            PieceView::Text(extras_of(options)),
        ],
        sources: seq![FlagView::Known(false)] + object.sources,
        opens: seq![FlagView::Known(object.open)] + object.opens,
    }
}

fn push_flag(flags: &mut Vec<Flag>, flag: Flag)
    ensures
        flag_views(final(flags)@) == flag_views(old(flags)@).push(flag@),
{
    let ghost before = flags@;
    flags.push(flag);
    assert(flag_views(flags@) =~= flag_views(before).push(flag@));
}

fn add_field(object: &mut ObjectParts, field: &Field, owner: &str, outer: &Serde) -> (added: Result<(), String>)
    ensures
        match field_step(old(object)@, *field, owner@, outer@) {
            Ok(expected) => added == Ok::<(), String>(()) && final(object)@ == expected,
            Err(words) => added matches Err(message) && message@ == words,
        },
{
    let ghost start = object@;
    let local = match serde(&field.attributes, Owner::Field) {
        Ok(local) => local,
        Err(message) => return Err(message),
    };
    if local.skip {
        return Ok(());
    }
    let name = match &field.name {
        Some(name) => name,
        None => return Err("Schema object properties require named fields.".to_owned()),
    };
    let field_options = match options(&field.attributes) {
        Ok(field_options) => field_options,
        Err(message) => return Err(message),
    };
    if local.flatten {
        if !is_type(&field.ty, "Fields") {
            return Err("Only `Fields` may use `#[serde(flatten)]`; spell `Fields` directly.".to_owned());
        }
        if object.open {
            return Err("Only one flattened `Fields` property is permitted.".to_owned());
        }
        if local.default || local.rename.is_some() || field_options.members.len() > 0
            || field_options.item_format.is_some() {
            return Err("Flattened `Fields` cannot have schema bounds, a rename, or a default.".to_owned());
        }
        object.open = true;
        return Ok(());
    }
    let property = write_name(&local, name.as_str(), outer.rename_all, false);
    match validate_property(property.as_str()) {
        Ok(_) => {},
        Err(message) => return Err(message),
    }
    if holds_text(&object.names, property.as_str()) {
        return Err("Serialized schema property names must be unique.".to_owned());
    }
    let shape = match shape(&field.ty, owner, &field_options) {
        Ok(shape) => shape,
        Err(message) => return Err(message),
    };
    let required = !shape.optional && !local.default && !outer.default;
    let ghost shown = shape@;
    if object.names.len() > 0 {
        put_text(&mut object.properties, ",");
    }
    push_flag(&mut object.sources, shape.source.copy());
    push_flag(&mut object.opens, shape.open.copy());
    put(&mut object.properties, Piece::Name(property.clone()));
    put_text(&mut object.properties, ":");
    put_all(&mut object.properties, complete_schema(shape, &field_options));
    if required {
        let ghost before = object.required@;
        object.required.push(property.clone());
        assert(texts(object.required@) =~= texts(before).push(property@));
    }
    let ghost before = object.names@;
    object.names.push(property);
    proof {
        assert(texts(object.names@) =~= texts(before).push(property@));
        let expected = with_property(start, property@, shown, field_options@, required);
        assert(object@.properties =~= expected.properties);
        assert(object@ == expected);
    }
    Ok(())
}

/// The definition of the object of `owner` with these fields, or what is wrong with it.
pub open spec fn object_of(fields: Seq<Field>, owner: Seq<char>, outer: SerdeView, options: OptionsView) -> Result<
    DefinitionView,
    Seq<char>,
> {
    match fields_before(fields, owner, outer, fields.len() as int) {
        Err(words) => Err(words),
        Ok(object) => if object.names.len() > 256 {
            Err("An object may declare at most 256 schema properties."@)
        } else {
            Ok(object_definition(object, options))
        },
    }
}

/// Returns the definition of the object of `owner` with these fields.
pub fn object_schema(fields: &Vec<Field>, owner: &str, outer: &Serde, options: &SchemaOptions) -> (result: Result<
    Definition,
    String,
>)
    ensures
        match object_of(fields@, owner@, outer@, options@) {
            Ok(expected) => result matches Ok(result) && result@ == expected,
            Err(words) => result matches Err(message) && message@ == words,
        },
{
    let mut object = ObjectParts {
        properties: Vec::new(),
        names: Vec::new(),
        required: Vec::new(),
        sources: Vec::new(),
        opens: Vec::new(),
        open: false,
    };
    proof {
        assert(object@.properties =~= no_fields().properties);
        assert(object@.names =~= no_fields().names);
        assert(object@.required =~= no_fields().required);
        assert(object@.sources =~= no_fields().sources);
        assert(object@.opens =~= no_fields().opens);
    }
    let mut index: usize = 0;
    while index < fields.len()
        invariant
            index <= fields.len(),
            fields_before(fields@, owner@, outer@, index as int) == Ok::<_, Seq<char>>(object@),
        decreases fields.len() - index,
    {
        match add_field(&mut object, &fields[index], owner, outer) {
            Ok(_) => {},
            Err(message) => {
                proof {
                    lemma_first_wrong_field(fields@, owner@, outer@, index + 1, fields@.len() as int);
                }
                return Err(message);
            },
        }
        index += 1;
    }
    if object.names.len() > 256 {
        return Err("An object may declare at most 256 schema properties.".to_owned());
    }
    let ghost shown = object@;
    let required = write_texts(&object.required);
    let ObjectParts { properties, sources: mut field_sources, opens: mut field_opens, open, .. } = object;
    let mut rest: Vec<Piece> = Vec::new();
    assert(piece_views(rest@) =~= Seq::empty());
    put_text(&mut rest, ",\"properties\":{");
    put_all(&mut rest, properties);
    put_text(&mut rest, "},\"required\":");
    put(&mut rest, Piece::Text(required));
    put_text(&mut rest, ",\"additionalProperties\":");
    put_text(
        &mut rest,
        if open {
            "true"
        } else {
            "false"
        },
    );
    put(&mut rest, Piece::Text(extra_members(options)));
    let mut sources: Vec<Flag> = Vec::new();
    let mut opens: Vec<Flag> = Vec::new();
    sources.push(Flag::Known(false));
    opens.push(Flag::Known(open));
    sources.append(&mut field_sources);
    opens.append(&mut field_opens);
    let definition = Definition { kind: Kind::Known("object"), rest, sources, opens };
    proof {
        let expected = object_definition(shown, options@);
        assert(definition@.rest =~= expected.rest);
        assert(definition@.sources =~= expected.sources);
        assert(definition@.opens =~= expected.opens);
    }
    Ok(definition)
}

/// The properties of an object are distinct, have valid names, and hold those that have
/// to be there; an object is open only where one of its fields says so.
pub proof fn law_object_properties(fields: Seq<Field>, owner: Seq<char>, outer: SerdeView, end: int)
    requires
        0 <= end <= fields.len(),
    ensures
        fields_before(fields, owner, outer, end) matches Ok(object) ==> {
            &&& object.names.no_duplicates()
            &&& forall|i: int| 0 <= i < object.names.len() ==> is_property(#[trigger] object.names[i])
            &&& forall|i: int| 0 <= i < object.required.len() ==> object.names.contains(#[trigger] object.required[i])
            &&& object.sources.len() == object.names.len()
            &&& object.opens.len() == object.names.len()
            &&& object.open ==> exists|i: int|
                0 <= i < end && (serde_of((#[trigger] fields[i]).attributes@, Owner::Field) matches Ok(local)
                    && local.flatten)
        },
    decreases end,
{
    if end > 0 {
        law_object_properties(fields, owner, outer, end - 1);
        if let Ok(object) = fields_before(fields, owner, outer, end - 1) {
            if let Ok(next) = field_step(object, fields[end - 1], owner, outer) {
                if next.names != object.names {
                    let property = next.names.last();
                    assert(next.names == object.names.push(property));
                    assert(!object.names.contains(property));
                    assert forall|i: int| 0 <= i < next.required.len() implies next.names.contains(
                        #[trigger] next.required[i],
                    ) by {
                        if i < object.required.len() {
                            assert(next.required[i] == object.required[i]);
                            let j = choose|j: int| 0 <= j < object.names.len() && object.names[j] == object.required[i];
                            assert(next.names[j] == next.required[i]);
                        } else {
                            assert(next.names[object.names.len() as int] == property);
                        }
                    }
                }
                if next.open && !object.open {
                    assert(serde_of(fields[end - 1].attributes@, Owner::Field) is Ok);
                }
            }
        }
    }
}

/// The values of the first `end` variants that are serialized, or what is wrong with the
/// first that is wrong.
pub open spec fn values_before(variants: Seq<Variant>, outer: SerdeView, end: int) -> Result<
    Seq<Seq<char>>,
    Seq<char>,
>
    decreases end,
{
    if end <= 0 {
        Ok(Seq::empty())
    } else {
        match values_before(variants, outer, end - 1) {
            Err(words) => Err(words),
            Ok(values) => {
                let variant = variants[end - 1];
                if !variant.unit {
                    Err("Data-carrying enums are unsupported; use a unit enum or a closed object."@)
                } else {
                    match serde_of(variant.attributes@, Owner::Variant) {
                        Err(words) => Err(words),
                        Ok(local) => if local.skip {
                            Ok(values)
                        } else {
                            let value = serialized_name(local, variant.name@, outer.rename_all, true);
                            if values.contains(value) {
                                Err("Serialized enum values must be unique."@)
                            } else {
                                Ok(values.push(value))
                            }
                        },
                    }
                }
            },
        }
    }
}

proof fn lemma_first_wrong_variant(variants: Seq<Variant>, outer: SerdeView, end: int, later: int)
    requires
        0 <= end <= later,
        values_before(variants, outer, end) is Err,
    ensures
        values_before(variants, outer, later) == values_before(variants, outer, end),
    decreases later - end,
{
    if end < later {
        lemma_first_wrong_variant(variants, outer, end, later - 1);
    }
}

/// The values of an enum are distinct.
pub proof fn law_enum_values_are_distinct(variants: Seq<Variant>, outer: SerdeView, end: int)
    requires
        0 <= end <= variants.len(),
    ensures
        values_before(variants, outer, end) matches Ok(values) ==> values.no_duplicates(),
    decreases end,
{
    if end > 0 {
        law_enum_values_are_distinct(variants, outer, end - 1);
    }
}

/// The definition of an enum of these values.
pub open spec fn enum_definition(values: Seq<Seq<char>>, options: OptionsView) -> DefinitionView {
    DefinitionView {
        kind: KindView::Known("string"@),
        rest: seq![
            PieceView::Text(",\"enum\":"@),
            PieceView::Text(json_text(text_values(values))),
            PieceView::Text(extras_of(options)),
        ],
        sources: seq![FlagView::Known(false)],
        opens: seq![FlagView::Known(false)],
    }
}

fn add_variant(values: &mut Vec<String>, variant: &Variant, outer: &Serde) -> (added: Result<(), String>)
    ensures
        if !variant.unit {
            added matches Err(message) && message@
                == "Data-carrying enums are unsupported; use a unit enum or a closed object."@
        } else {
            match serde_of(variant.attributes@, Owner::Variant) {
                Err(words) => added matches Err(message) && message@ == words,
                Ok(local) => {
                    let value = serialized_name(local, variant.name@, outer@.rename_all, true);
                    if local.skip {
                        added == Ok::<(), String>(()) && texts(final(values)@) == texts(old(values)@)
                    } else if texts(old(values)@).contains(value) {
                        added matches Err(message) && message@ == "Serialized enum values must be unique."@
                    } else {
                        added == Ok::<(), String>(()) && texts(final(values)@) == texts(old(values)@).push(value)
                    }
                },
            }
        },
{
    if !variant.unit {
        return Err("Data-carrying enums are unsupported; use a unit enum or a closed object.".to_owned());
    }
    let local = match serde(&variant.attributes, Owner::Variant) {
        Ok(local) => local,
        Err(message) => return Err(message),
    };
    if local.skip {
        return Ok(());
    }
    let value = write_name(&local, variant.name.as_str(), outer.rename_all, true);
    if holds_text(values, value.as_str()) {
        return Err("Serialized enum values must be unique.".to_owned());
    }
    let ghost before = values@;
    values.push(value);
    assert(texts(values@) =~= texts(before).push(value@));
    Ok(())
}

/// The definition of a declared type, or what is wrong with it.
pub open spec fn definition_of(declaration: Declaration, options: OptionsView, outer: SerdeView) -> Result<
    DefinitionView,
    Seq<char>,
> {
    match declaration.data {
        Data::Named(fields) => object_of(fields@, declaration.name@, outer, options),
        Data::Tuple(fields) => if fields@.len() == 1 {
            match serde_of(fields@[0].attributes@, Owner::Field) {
                Err(words) => Err(words),
                Ok(local) => if local.skip || local.flatten || local.rename is Some || local.default {
                    Err("A schema newtype cannot skip, flatten, rename, or default its inner value."@)
                } else {
                    match shape_of(fields@[0].ty, declaration.name@, options) {
                        Err(words) => Err(words),
                        Ok(shape) => if shape.optional {
                            Err("Use `Option<YourType>` at the property instead of an optional schema newtype."@)
                        } else {
                            Ok(
                                DefinitionView {
                                    kind: shape.kind,
                                    rest: seq![PieceView::Begin] + shape.rest + seq![
                                        PieceView::End(extras_of(options)),
                                    ],
                                    sources: seq![shape.source],
                                    opens: seq![shape.open],
                                },
                            )
                        },
                    }
                },
            }
        } else {
            Err(
                "Use a named-field object or a single-field newtype; tuple and unit structs are unsupported schemas."@,
            )
        },
        Data::Unit => Err(
            "Use a named-field object or a single-field newtype; tuple and unit structs are unsupported schemas."@,
        ),
        Data::Enumeration(variants) => match values_before(variants@, outer, variants@.len() as int) {
            Err(words) => Err(words),
            Ok(values) => if 0 < values.len() <= 256 {
                Ok(enum_definition(values, options))
            } else {
                Err("A schema enum requires between one and 256 visible unit variants."@)
            },
        },
        Data::Union => Err("Unions are unsupported schemas; use a closed object or unit enum."@),
    }
}

fn newtype_schema(field: &Field, owner: &str, options: &SchemaOptions) -> (result: Result<Definition, String>)
    ensures
        match serde_of(field.attributes@, Owner::Field) {
            Err(words) => result matches Err(message) && message@ == words,
            Ok(local) => if local.skip || local.flatten || local.rename is Some || local.default {
                result matches Err(message) && message@
                    == "A schema newtype cannot skip, flatten, rename, or default its inner value."@
            } else {
                match shape_of(field.ty, owner@, options@) {
                    Err(words) => result matches Err(message) && message@ == words,
                    Ok(shape) => if shape.optional {
                        result matches Err(message) && message@
                            == "Use `Option<YourType>` at the property instead of an optional schema newtype."@
                    } else {
                        result matches Ok(result) && result@ == (DefinitionView {
                            kind: shape.kind,
                            rest: seq![PieceView::Begin] + shape.rest + seq![PieceView::End(extras_of(options@))],
                            sources: seq![shape.source],
                            opens: seq![shape.open],
                        })
                    },
                }
            },
        },
{
    let local = match serde(&field.attributes, Owner::Field) {
        Ok(local) => local,
        Err(message) => return Err(message),
    };
    if local.skip || local.flatten || local.rename.is_some() || local.default {
        return Err("A schema newtype cannot skip, flatten, rename, or default its inner value.".to_owned());
    }
    let shape = match shape(&field.ty, owner, options) {
        Ok(shape) => shape,
        Err(message) => return Err(message),
    };
    if shape.optional {
        return Err("Use `Option<YourType>` at the property instead of an optional schema newtype.".to_owned());
    }
    let ghost shown = shape@;
    let mut rest: Vec<Piece> = Vec::new();
    assert(piece_views(rest@) =~= Seq::empty());
    put(&mut rest, Piece::Begin);
    put_all(&mut rest, shape.rest);
    put(&mut rest, Piece::End(extra_members(options)));
    let mut sources: Vec<Flag> = Vec::new();
    let mut opens: Vec<Flag> = Vec::new();
    sources.push(shape.source);
    opens.push(shape.open);
    let definition = Definition { kind: shape.kind, rest, sources, opens };
    proof {
        assert(definition@.rest =~= seq![PieceView::Begin] + shown.rest + seq![PieceView::End(extras_of(options@))]);
        assert(definition@.sources =~= seq![shown.source]);
        assert(definition@.opens =~= seq![shown.open]);
    }
    Ok(definition)
}

/// Returns the definition of a declared type.
pub fn definition(declaration: &Declaration, options: &SchemaOptions, outer: &Serde) -> (result: Result<
    Definition,
    String,
>)
    ensures
        match definition_of(*declaration, options@, outer@) {
            Ok(expected) => result matches Ok(result) && result@ == expected,
            Err(words) => result matches Err(message) && message@ == words,
        },
{
    match &declaration.data {
        Data::Named(fields) => object_schema(fields, declaration.name.as_str(), outer, options),
        Data::Tuple(fields) => {
            if fields.len() == 1 {
                newtype_schema(&fields[0], declaration.name.as_str(), options)
            } else {
                Err(
                    "Use a named-field object or a single-field newtype; tuple and unit structs are unsupported schemas.".to_owned(),
                )
            }
        },
        Data::Unit => Err(
            "Use a named-field object or a single-field newtype; tuple and unit structs are unsupported schemas.".to_owned(),
        ),
        Data::Enumeration(variants) => {
            let mut values: Vec<String> = Vec::new();
            let mut index: usize = 0;
            assert(texts(values@) =~= Seq::empty());
            while index < variants.len()
                invariant
                    index <= variants.len(),
                    declaration.data == Data::Enumeration(*variants),
                    values_before(variants@, outer@, index as int) == Ok::<_, Seq<char>>(texts(values@)),
                decreases variants.len() - index,
            {
                match add_variant(&mut values, &variants[index], outer) {
                    Ok(_) => {},
                    Err(message) => {
                        proof {
                            lemma_first_wrong_variant(variants@, outer@, index + 1, variants@.len() as int);
                        }
                        return Err(message);
                    },
                }
                index += 1;
            }
            if values.len() == 0 || values.len() > 256 {
                return Err("A schema enum requires between one and 256 visible unit variants.".to_owned());
            }
            let mut rest: Vec<Piece> = Vec::new();
            assert(piece_views(rest@) =~= Seq::empty());
            put_text(&mut rest, ",\"enum\":");
            put(&mut rest, Piece::Text(write_texts(&values)));
            put(&mut rest, Piece::Text(extra_members(options)));
            let mut sources: Vec<Flag> = Vec::new();
            let mut opens: Vec<Flag> = Vec::new();
            sources.push(Flag::Known(false));
            opens.push(Flag::Known(false));
            let result = Definition { kind: Kind::Known("string"), rest, sources, opens };
            proof {
                let expected = enum_definition(texts(values@), options@);
                assert(result@.rest =~= expected.rest);
                assert(result@.sources =~= expected.sources);
                assert(result@.opens =~= expected.opens);
            }
            Ok(result)
        },
        Data::Union => Err("Unions are unsupported schemas; use a closed object or unit enum.".to_owned()),
    }
}

/// A key of a manifest.
pub open spec fn is_manifest_key(text: Seq<char>) -> bool {
    is_label(text) && byte_count(text) <= 64
}

/// Checks a key of a manifest.
pub fn validate_key(name: &str) -> (valid: Result<(), String>)
    ensures
        if is_manifest_key(name@) {
            valid == Ok::<(), String>(())
        } else {
            valid matches Err(message) && message@ == "Manifest keys must use kebab-case and fit 64 characters."@
        },
{
    if byte_len(name) <= 64 && label(name) {
        Ok(())
    } else {
        Err("Manifest keys must use kebab-case and fit 64 characters.".to_owned())
    }
}

/// The identifier that an entry is given, or what is wrong with it.
pub open spec fn word_value(value: MetaValue) -> Result<Seq<char>, Seq<char>> {
    match value {
        MetaValue::Equals(Literal::Word(word)) => Ok(word@),
        MetaValue::Equals(_) => Err("expected identifier"@),
        _ => Err("expected `=`"@),
    }
}

fn meta_word(value: &MetaValue) -> (word: Result<&str, String>)
    ensures
        match word_value(*value) {
            Ok(expected) => word matches Ok(word) && word@ == expected,
            Err(words) => word matches Err(message) && message@ == words,
        },
{
    match value {
        MetaValue::Equals(Literal::Word(word)) => Ok(word.as_str()),
        MetaValue::Equals(_) => Err("expected identifier".to_owned()),
        _ => Err("expected `=`".to_owned()),
    }
}

/// What the entries of `resource` attributes from `index` on say of the name and the key.
pub open spec fn resource_from(
    name: Option<Seq<char>>,
    key: Option<Seq<char>>,
    names: Seq<Seq<char>>,
    entries: Seq<EntryView>,
    index: int,
) -> Result<(Option<Seq<char>>, Option<Seq<char>>), Seq<char>>
    decreases entries.len() - index,
{
    if index < 0 || index >= entries.len() {
        Ok((name, key))
    } else {
        match entries[index] {
            EntryView::Broken(words) => Err(words),
            EntryView::Meta(meta) => match meta.name {
                None => Err("Use `name` or `key`."@),
                Some(field) => if names.contains(field@) {
                    Err(repeated_words(field@))
                } else if field@ == "name"@ {
                    match text_value(meta.value) {
                        Err(words) => Err(words),
                        Ok(text) => resource_from(Some(text), key, names.push(field@), entries, index + 1),
                    }
                } else if field@ == "key"@ {
                    match word_value(meta.value) {
                        Err(words) => Err(words),
                        Ok(word) => resource_from(name, Some(word), names.push(field@), entries, index + 1),
                    }
                } else {
                    Err(
                        "Declare a resource with `#[resource(name = \"items\", key = id)]`; read-only resources may omit `key`."@,
                    )
                },
            },
        }
    }
}

fn resource_entries(attributes: &Vec<Attribute>) -> (result: Result<(Option<String>, Option<String>), String>)
    ensures
        match resource_from(
            None,
            None,
            Seq::empty(),
            entries_of(attributes@, "resource"@, attributes@.len() as int),
            0,
        ) {
            Err(words) => result matches Err(message) && message@ == words,
            Ok((name, key)) => result matches Ok((found, at)) && text_of_option(found) == name && text_of_option(at)
                == key,
        },
{
    let entries = collect_entries(attributes, "resource");
    let ghost shown = entry_views(entries@);
    let ghost outcome = resource_from(None, None, Seq::empty(), shown, 0);
    let mut name: Option<String> = None;
    let mut key: Option<String> = None;
    let mut names: Vec<String> = Vec::new();
    let mut index: usize = 0;
    assert(texts(names@) =~= Seq::empty());
    while index < entries.len()
        invariant
            index <= entries.len(),
            shown == entry_views(entries@),
            shown == entries_of(attributes@, "resource"@, attributes@.len() as int),
            outcome == resource_from(None, None, Seq::empty(), shown, 0),
            outcome == resource_from(text_of_option(name), text_of_option(key), texts(names@), shown, index as int),
        decreases entries.len() - index,
    {
        assert(shown[index as int] == entries@[index as int]@);
        let meta = match &entries[index] {
            Entry::Meta(meta) => *meta,
            Entry::Broken(words) => return Err((*words).to_owned()),
        };
        let field = match &meta.name {
            Some(field) => field,
            None => return Err("Use `name` or `key`.".to_owned()),
        };
        if holds_text(&names, field.as_str()) {
            return Err(repeated(field.as_str()));
        }
        if same_text(field.as_str(), "name") {
            match meta_text(&meta.value) {
                Ok(text) => {
                    name = Some(text.to_owned());
                },
                Err(message) => return Err(message),
            }
        } else if same_text(field.as_str(), "key") {
            match meta_word(&meta.value) {
                Ok(word) => {
                    key = Some(word.to_owned());
                },
                Err(message) => return Err(message),
            }
        } else {
            return Err(
                "Declare a resource with `#[resource(name = \"items\", key = id)]`; read-only resources may omit `key`.".to_owned(),
            );
        }
        let ghost before = names@;
        names.push(field.clone());
        assert(texts(names@) =~= texts(before).push(field@));
        index += 1;
    }
    assert(shown.len() == entries@.len());
    Ok((name, key))
}

/// The text of an option, where there is one.
pub open spec fn text_of_option(text: Option<String>) -> Option<Seq<char>> {
    match text {
        Some(text) => Some(text@),
        None => None,
    }
}

/// The first field of a name, from `index` on.
pub open spec fn field_from(fields: Seq<Field>, name: Seq<char>, index: int) -> Option<Field>
    decreases fields.len() - index,
{
    if index < 0 || index >= fields.len() {
        None
    } else if fields[index].name matches Some(found) && found@ == name {
        Some(fields[index])
    } else {
        field_from(fields, name, index + 1)
    }
}

fn find_field<'a>(fields: &'a Vec<Field>, name: &str) -> (found: Option<&'a Field>)
    ensures
        match found {
            Some(field) => field_from(fields@, name@, 0) == Some(*field),
            None => field_from(fields@, name@, 0) is None,
        },
{
    let mut index: usize = 0;
    while index < fields.len()
        invariant
            index <= fields.len(),
            field_from(fields@, name@, 0) == field_from(fields@, name@, index as int),
        decreases fields.len() - index,
    {
        let named = match &fields[index].name {
            Some(found) => same_text(found.as_str(), name),
            None => false,
        };
        if named {
            return Some(&fields[index]);
        }
        index += 1;
    }
    None
}

/// The longest value that options allow a string, where they bound it.
pub open spec fn length_bound(options: OptionsView) -> Option<u64> {
    match member_from(options.members, "maxLength"@, 0) {
        Some(member) => number_in(Some(member.value)),
        None => None,
    }
}

/// The field can tell the items of a resource apart: a string that has to be there,
/// between one and 512 characters at most.
pub open spec fn is_key_field(field: Field, local: SerdeView, outer: SerdeView, options: OptionsView) -> bool {
    &&& last_type(field.ty) == Some("String"@)
    &&& !local.skip && !local.flatten && !local.default && !outer.default
    &&& length_bound(options) matches Some(bound) && 0 < bound <= 512
}

/// What a resource declares: its name, and the property that tells its items apart.
pub struct ResourcePart {
    pub name: String,
    pub key: Option<String>,
}

/// What the resource of a declared type declares, or what is wrong with it.
pub open spec fn resource_of(declaration: Declaration) -> Result<(Seq<char>, Option<Seq<char>>), Seq<char>> {
    match resource_from(
        None,
        None,
        Seq::empty(),
        entries_of(declaration.attributes@, "resource"@, declaration.attributes@.len() as int),
        0,
    ) {
        Err(words) => Err(words),
        Ok((None, _)) => Err(
            "Declare `#[resource(name = \"items\", key = id)]`; read-only resources may omit `key`."@,
        ),
        Ok((Some(name), key)) => if !is_manifest_key(name) {
            Err("Manifest keys must use kebab-case and fit 64 characters."@)
        } else {
            match declaration.data {
                Data::Named(fields) => match serde_of(declaration.attributes@, Owner::Type) {
                    Err(words) => Err(words),
                    Ok(outer) => match key {
                        None => Ok((name, None)),
                        Some(key) => match field_from(fields@, key, 0) {
                            None => Err("The resource key must name a declared property."@),
                            Some(field) => match serde_of(field.attributes@, Owner::Field) {
                                Err(words) => Err(words),
                                Ok(local) => match options_of(field.attributes@) {
                                    Err(words) => Err(words),
                                    Ok(options) => if is_key_field(field, local, outer, options) {
                                        Ok((name, Some(serialized_name(local, key, outer.rename_all, false))))
                                    } else {
                                        Err(
                                            "A resource key must be a required `String` with `#[schema(max_length = 512)]` or a smaller positive bound."@,
                                        )
                                    },
                                },
                            },
                        },
                    },
                },
                _ => Err("Resources require a named-field object."@),
            }
        },
    }
}

fn key_field(field: &Field, local: &Serde, outer: &Serde, options: &SchemaOptions) -> (valid: bool)
    ensures
        valid == is_key_field(*field, local@, outer@, options@),
{
    let bound = match options.find("maxLength") {
        Some(index) => options.members[index].value.as_number(),
        None => None,
    };
    let bounded = match bound {
        Some(bound) => 0 < bound && bound <= 512,
        None => false,
    };
    is_type(&field.ty, "String") && !local.skip && !local.flatten && !local.default && !outer.default && bounded
}

/// Returns what the resource of a declared type declares.
pub fn resource(declaration: &Declaration) -> (result: Result<ResourcePart, String>)
    ensures
        match resource_of(*declaration) {
            Ok((name, key)) => result matches Ok(part) && part.name@ == name && text_of_option(part.key) == key,
            Err(words) => result matches Err(message) && message@ == words,
        },
{
    let (name, key) = match resource_entries(&declaration.attributes) {
        Ok(entries) => entries,
        Err(message) => return Err(message),
    };
    let name = match name {
        Some(name) => name,
        None => return Err(
            "Declare `#[resource(name = \"items\", key = id)]`; read-only resources may omit `key`.".to_owned(),
        ),
    };
    match validate_key(name.as_str()) {
        Ok(_) => {},
        Err(message) => return Err(message),
    }
    let fields = match &declaration.data {
        Data::Named(fields) => fields,
        _ => return Err("Resources require a named-field object.".to_owned()),
    };
    let outer = match serde(&declaration.attributes, Owner::Type) {
        Ok(outer) => outer,
        Err(message) => return Err(message),
    };
    let key = match key {
        Some(key) => key,
        None => return Ok(ResourcePart { name, key: None }),
    };
    let field = match find_field(fields, key.as_str()) {
        Some(field) => field,
        None => return Err("The resource key must name a declared property.".to_owned()),
    };
    let local = match serde(&field.attributes, Owner::Field) {
        Ok(local) => local,
        Err(message) => return Err(message),
    };
    let bound = match options(&field.attributes) {
        Ok(bound) => bound,
        Err(message) => return Err(message),
    };
    if !key_field(field, &local, &outer, &bound) {
        return Err(
            "A resource key must be a required `String` with `#[schema(max_length = 512)]` or a smaller positive bound.".to_owned(),
        );
    }
    let serialized = write_name(&local, key.as_str(), outer.rename_all, false);
    Ok(ResourcePart { name, key: Some(serialized) })
}

/// What is derived from a declared type.
pub struct Derived {
    /// The path of the SDK, where the declaration gives one.
    pub crate_path: Option<String>,
    pub definition: Definition,
    /// The conditions that the type's own options put on it.
    pub rules: Vec<Rule>,
    pub resource: Option<ResourcePart>,
}

/// What is wrong with a declared type whose schema, and maybe whose resource, is to be
/// derived, if anything.
pub open spec fn derive_fault(declaration: Declaration, with_resource: bool) -> Option<Seq<char>> {
    if declaration.lifetimes {
        Some("Schemas own their data; replace borrowed fields and lifetime parameters with owned values."@)
    } else {
        match options_of(declaration.attributes@) {
            Err(words) => Some(words),
            Ok(options) => match serde_of(declaration.attributes@, Owner::Type) {
                Err(words) => Some(words),
                Ok(outer) => match definition_of(declaration, options, outer) {
                    Err(words) => Some(words),
                    Ok(_) => if with_resource {
                        match resource_of(declaration) {
                            Err(words) => Some(words),
                            Ok(_) => None,
                        }
                    } else {
                        None
                    },
                },
            },
        }
    }
}

/// What a resource part says.
pub open spec fn resource_view(part: Option<ResourcePart>) -> Option<(Seq<char>, Option<Seq<char>>)> {
    match part {
        Some(part) => Some((part.name@, text_of_option(part.key))),
        None => None,
    }
}

/// Derives the schema of a declared type, and its resource where that is asked for.
pub fn derive(declaration: &Declaration, with_resource: bool) -> (result: Result<Derived, String>)
    ensures
        match derive_fault(*declaration, with_resource) {
            Some(words) => result matches Err(message) && message@ == words,
            None => {
                let options = options_of(declaration.attributes@)->Ok_0;
                let outer = serde_of(declaration.attributes@, Owner::Type)->Ok_0;
                &&& result matches Ok(derived)
                &&& text_of_option(derived.crate_path) == options.crate_path
                &&& definition_of(*declaration, options, outer) == Ok::<_, Seq<char>>(derived.definition@)
                &&& derived.rules@ == all_rules(options)
                &&& resource_view(derived.resource) == if with_resource {
                    Some(resource_of(*declaration)->Ok_0)
                } else {
                    None
                }
            },
        },
{
    if declaration.lifetimes {
        return Err(
            "Schemas own their data; replace borrowed fields and lifetime parameters with owned values.".to_owned(),
        );
    }
    let type_options = match options(&declaration.attributes) {
        Ok(type_options) => type_options,
        Err(message) => return Err(message),
    };
    let outer = match serde(&declaration.attributes, Owner::Type) {
        Ok(outer) => outer,
        Err(message) => return Err(message),
    };
    let defined = match definition(declaration, &type_options, &outer) {
        Ok(defined) => defined,
        Err(message) => return Err(message),
    };
    let part = if with_resource {
        match resource(declaration) {
            Ok(part) => Some(part),
            Err(message) => return Err(message),
        }
    } else {
        None
    };
    let rules = constraint_checks(&type_options);
    Ok(Derived { crate_path: type_options.crate_path, definition: defined, rules, resource: part })
}

proof fn lemma_required_stay(fields: Seq<Field>, owner: Seq<char>, outer: SerdeView, property: Seq<char>, end: int, later: int)
    requires
        0 <= end <= later,
        fields_before(fields, owner, outer, later) is Ok,
        fields_before(fields, owner, outer, end) matches Ok(object) ==> object.required.contains(property),
    ensures
        fields_before(fields, owner, outer, end) is Ok,
        fields_before(fields, owner, outer, later)->Ok_0.required.contains(property),
    decreases later - end,
{
    if end < later {
        assert(fields_before(fields, owner, outer, later - 1) is Ok);
        lemma_required_stay(fields, owner, outer, property, end, later - 1);
        let object = fields_before(fields, owner, outer, later - 1)->Ok_0;
        let next = fields_before(fields, owner, outer, later)->Ok_0;
        let i = choose|i: int| 0 <= i < object.required.len() && object.required[i] == property;
        assert(next.required[i] == property);
    }
}

proof fn lemma_found_field(fields: Seq<Field>, name: Seq<char>, index: int) -> (at: int)
    requires
        field_from(fields, name, index) is Some,
    ensures
        0 <= at < fields.len(),
        fields[at] == field_from(fields, name, index)->Some_0,
        fields[at].name matches Some(found) && found@ == name,
    decreases fields.len() - index,
{
    if fields[index].name matches Some(found) && found@ == name {
        index
    } else {
        lemma_found_field(fields, name, index + 1)
    }
}

/// The key of a derived resource is a property of its schema that has to be there.
pub proof fn law_resource_key_is_required(declaration: Declaration, fields: Vec<Field>)
    requires
        derive_fault(declaration, true) is None,
        declaration.data == Data::Named(fields),
    ensures
        resource_of(declaration)->Ok_0.1 matches Some(key) ==> {
            let outer = serde_of(declaration.attributes@, Owner::Type)->Ok_0;
            &&& fields_before(fields@, declaration.name@, outer, fields@.len() as int) matches Ok(object)
            &&& object.required.contains(key)
        },
{
    let outer = serde_of(declaration.attributes@, Owner::Type)->Ok_0;
    let owner = declaration.name@;
    if let Some(key) = resource_of(declaration)->Ok_0.1 {
        let (_, named) = resource_from(
            None,
            None,
            Seq::empty(),
            entries_of(declaration.attributes@, "resource"@, declaration.attributes@.len() as int),
            0,
        )->Ok_0;
        let at = lemma_found_field(fields@, named->Some_0, 0);
        let field = fields@[at];
        lemma_ok_before(fields@, owner, outer, at + 1, fields@.len() as int);
        lemma_ok_before(fields@, owner, outer, at, fields@.len() as int);
        let object = fields_before(fields@, owner, outer, at)->Ok_0;
        let next = fields_before(fields@, owner, outer, at + 1)->Ok_0;
        let local = serde_of(field.attributes@, Owner::Field)->Ok_0;
        let options = options_of(field.attributes@)->Ok_0;
        reveal_strlit("String");
        reveal_strlit("Option");
        reveal_strlit("Vec");
        reveal_strlit("BTreeMap");
        assert("String"@[0] == 'S' && "Option"@[0] == 'O' && "Vec"@[0] == 'V' && "BTreeMap"@[0] == 'B');
        let shape = shape_of(field.ty, owner, options)->Ok_0;
        assert(!shape.optional);
        assert(next == with_property(object, key, shape, options, true));
        assert(next.required == object.required.push(key));
        assert(next.required[object.required.len() as int] == key);
        lemma_required_stay(fields@, owner, outer, key, at + 1, fields@.len() as int);
    }
}

proof fn lemma_ok_before(fields: Seq<Field>, owner: Seq<char>, outer: SerdeView, end: int, later: int)
    requires
        0 <= end <= later,
        fields_before(fields, owner, outer, later) is Ok,
    ensures
        fields_before(fields, owner, outer, end) is Ok,
    decreases later - end,
{
    if end < later {
        lemma_ok_before(fields, owner, outer, end, later - 1);
    }
}

/// The property that a field is serialized as.
pub open spec fn property_of(field: Field, outer: SerdeView) -> Seq<char> {
    match serde_of(field.attributes@, Owner::Field)->Ok_0.rename {
        Some(renaming) => renaming,
        None => renamed(field.name->0@, outer.rename_all, false),
    }
}

/// The field is a property of its object: it is neither skipped nor taken apart.
pub open spec fn is_kept(field: Field) -> bool {
    serde_of(field.attributes@, Owner::Field) matches Ok(local) && !local.skip && !local.flatten
}

/// The field has to be there: its type is not spelled `Option`, and neither it nor its object
/// has a default.
pub open spec fn has_to_be(field: Field, outer: SerdeView) -> bool {
    last_type(field.ty) != Some("Option"@) && !serde_of(field.attributes@, Owner::Field)->Ok_0.default && !outer.default
}

/// Each field that is kept gives its object one property, and the object has no others; a
/// property has to be there exactly where its field does, whatever else is said of it.
pub proof fn law_properties_of_an_object(fields: Seq<Field>, owner: Seq<char>, outer: SerdeView, end: int)
    requires
        0 <= end <= fields.len(),
        fields_before(fields, owner, outer, end) is Ok,
    ensures
        ({
            let object = fields_before(fields, owner, outer, end)->Ok_0;
            &&& forall|i: int|
                0 <= i < end ==> serde_of((#[trigger] fields[i]).attributes@, Owner::Field) is Ok && (is_kept(fields[i])
                    ==> fields[i].name is Some && object.names.contains(property_of(fields[i], outer)))
            &&& forall|property: Seq<char>| #[trigger]
                object.names.contains(property) ==> exists|i: int|
                    0 <= i < end && is_kept(#[trigger] fields[i]) && property_of(fields[i], outer) == property
            &&& forall|i: int|
                0 <= i < end && is_kept(#[trigger] fields[i]) ==> (object.required.contains(
                    property_of(fields[i], outer),
                ) <==> has_to_be(fields[i], outer))
            &&& forall|property: Seq<char>| #[trigger]
                object.required.contains(property) ==> object.names.contains(property)
            &&& object.open <==> exists|i: int|
                0 <= i < end && (serde_of((#[trigger] fields[i]).attributes@, Owner::Field) matches Ok(local)
                    && !local.skip && local.flatten)
        }),
    decreases end,
{
    if end > 0 {
        lemma_ok_before(fields, owner, outer, end - 1, end);
        law_properties_of_an_object(fields, owner, outer, end - 1);
        law_object_properties(fields, owner, outer, end - 1);
        let before = fields_before(fields, owner, outer, end - 1)->Ok_0;
        let object = fields_before(fields, owner, outer, end)->Ok_0;
        let field = fields[end - 1];
        let local = serde_of(field.attributes@, Owner::Field)->Ok_0;
        if is_kept(field) {
            let options = options_of(field.attributes@)->Ok_0;
            let property = property_of(field, outer);
            let required = has_to_be(field, outer);
            law_only_options_may_be_null(field.ty, owner, options);
            assert(object.names == before.names.push(property));
            assert(object.required == if required {
                before.required.push(property)
            } else {
                before.required
            });
            assert(!before.names.contains(property));
            assert(object.names[before.names.len() as int] == property);
            assert forall|other: Seq<char>| #[trigger] object.names.contains(other) <==> before.names.contains(other) || other
                == property by {
                if before.names.contains(other) {
                    let i = choose|i: int| 0 <= i < before.names.len() && before.names[i] == other;
                    assert(object.names[i] == other);
                }
            }
            assert forall|other: Seq<char>| #[trigger] object.required.contains(other) <==> before.required.contains(other)
                || (other == property && required) by {
                if before.required.contains(other) {
                    let i = choose|i: int| 0 <= i < before.required.len() && before.required[i] == other;
                    assert(object.required[i] == other);
                }
                if required {
                    assert(object.required[before.required.len() as int] == property);
                }
            }
            assert forall|i: int| 0 <= i < end && is_kept(#[trigger] fields[i]) implies (object.required.contains(
                property_of(fields[i], outer),
            ) <==> has_to_be(fields[i], outer)) by {
                if i < end - 1 {
                    assert(before.names.contains(property_of(fields[i], outer)));
                } else {
                    assert(!before.required.contains(property));
                }
            }
            assert forall|other: Seq<char>| #[trigger] object.names.contains(other) implies exists|i: int|
                0 <= i < end && is_kept(#[trigger] fields[i]) && property_of(fields[i], outer) == other by {
                if before.names.contains(other) {
                    let i = choose|i: int|
                        0 <= i < end - 1 && is_kept(#[trigger] fields[i]) && property_of(fields[i], outer) == other;
                    assert(is_kept(fields[i]));
                } else {
                    assert(is_kept(fields[end - 1]));
                }
            }
        } else {
            assert(object.names == before.names && object.required == before.required);
            assert forall|other: Seq<char>| #[trigger] object.names.contains(other) implies exists|i: int|
                0 <= i < end && is_kept(#[trigger] fields[i]) && property_of(fields[i], outer) == other by {
                let i = choose|i: int|
                    0 <= i < end - 1 && is_kept(#[trigger] fields[i]) && property_of(fields[i], outer) == other;
                assert(is_kept(fields[i]));
            }
        }
        if before.open {
            let i = choose|i: int|
                0 <= i < end - 1 && (serde_of((#[trigger] fields[i]).attributes@, Owner::Field) matches Ok(local)
                    && !local.skip && local.flatten);
            assert(serde_of(fields[i].attributes@, Owner::Field) is Ok);
        }
        if object.open && !before.open {
            assert(serde_of(fields[end - 1].attributes@, Owner::Field) is Ok);
        }
    }
}

/// A field without attributes, whose type is not spelled `Option`, has to be there under its
/// own name, where its object has neither a default nor a rule for names.
pub proof fn law_plain_fields_are_required(fields: Seq<Field>, owner: Seq<char>, outer: SerdeView, index: int)
    requires
        0 <= index < fields.len(),
        fields_before(fields, owner, outer, fields.len() as int) is Ok,
        fields[index].attributes@.len() == 0,
        last_type(fields[index].ty) != Some("Option"@),
        !outer.default,
        outer.rename_all is None,
    ensures
        fields[index].name matches Some(name) && fields_before(
            fields,
            owner,
            outer,
            fields.len() as int,
        )->Ok_0.required.contains(name@),
{
    law_properties_of_an_object(fields, owner, outer, fields.len() as int);
    law_no_attributes_say_nothing(fields[index].attributes@, Owner::Field);
    assert(is_kept(fields[index]));
}

/// The schema of an object says which properties have to be there, and whether it takes
/// others: exactly where one of its fields takes them.
pub proof fn law_object_schema_says_what_is_required(
    fields: Seq<Field>,
    owner: Seq<char>,
    outer: SerdeView,
    options: OptionsView,
)
    requires
        object_of(fields, owner, outer, options) is Ok,
    ensures
        ({
            let definition = object_of(fields, owner, outer, options)->Ok_0;
            let object = fields_before(fields, owner, outer, fields.len() as int)->Ok_0;
            let end = definition.rest.len() as int;
            &&& fields_before(fields, owner, outer, fields.len() as int) is Ok
            &&& object.names.len() <= 256
            &&& definition.kind == KindView::Known("object"@)
            &&& end == object.properties.len() + 6
            &&& definition.rest[0] == PieceView::Text(",\"properties\":{"@)
            &&& definition.rest.subrange(1, end - 5) == object.properties
            &&& definition.rest[end - 5] == PieceView::Text("},\"required\":"@)
            &&& definition.rest[end - 4] == PieceView::Text(
                json_text(JsonValue::Array(object.required.map_values(|name: Seq<char>| JsonValue::Text(name)))),
            )
            &&& definition.rest[end - 3] == PieceView::Text(",\"additionalProperties\":"@)
            &&& definition.rest[end - 2] == PieceView::Text(
                if exists|i: int|
                    0 <= i < fields.len() && (serde_of((#[trigger] fields[i]).attributes@, Owner::Field) matches Ok(local)
                        && !local.skip && local.flatten) {
                    "true"@
                } else {
                    "false"@
                },
            )
            &&& definition.rest[end - 1] == PieceView::Text(extras_of(options))
            &&& definition.sources.skip(1) == object.sources
            &&& definition.opens.skip(1) == object.opens
        }),
{
    law_properties_of_an_object(fields, owner, outer, fields.len() as int);
    let definition = object_of(fields, owner, outer, options)->Ok_0;
    let object = fields_before(fields, owner, outer, fields.len() as int)->Ok_0;
    let end = definition.rest.len() as int;
    assert(definition.rest.subrange(1, end - 5) =~= object.properties);
    assert(definition.sources.skip(1) =~= object.sources);
    assert(definition.opens.skip(1) =~= object.opens);
}

/// The schema of each property stands in that of its object, behind its name and those of the
/// fields before it.
pub proof fn law_every_property_has_its_schema(fields: Seq<Field>, owner: Seq<char>, outer: SerdeView, index: int)
    requires
        0 <= index < fields.len(),
        fields_before(fields, owner, outer, index + 1) is Ok,
    ensures
        fields_before(fields, owner, outer, index) matches Ok(before) && {
            let after = fields_before(fields, owner, outer, index + 1)->Ok_0;
            let field = fields[index];
            if is_kept(field) {
                &&& options_of(field.attributes@) is Ok
                &&& shape_of(field.ty, owner, options_of(field.attributes@)->Ok_0) matches Ok(shape) && {
                    let comma: Seq<PieceView> = if before.names.len() == 0 {
                        Seq::empty()
                    } else {
                        seq![PieceView::Text(","@)]
                    };
                    &&& after.properties == before.properties + comma + seq![
                        PieceView::Name(property_of(field, outer)),
                        PieceView::Text(":"@),
                    ] + completed(shape, options_of(field.attributes@)->Ok_0)
                    &&& after.sources == before.sources.push(shape.source)
                    &&& after.opens == before.opens.push(shape.open)
                }
            } else {
                after.properties == before.properties && after.sources == before.sources && after.opens == before.opens
            }
        },
{
    lemma_ok_before(fields, owner, outer, index, index + 1);
    let before = fields_before(fields, owner, outer, index)->Ok_0;
    let after = fields_before(fields, owner, outer, index + 1)->Ok_0;
    let field = fields[index];
    if is_kept(field) {
        let options = options_of(field.attributes@)->Ok_0;
        let shape = shape_of(field.ty, owner, options)->Ok_0;
        let comma: Seq<PieceView> = if before.names.len() == 0 {
            Seq::empty()
        } else {
            seq![PieceView::Text(","@)]
        };
        assert(after.properties =~= before.properties + comma + seq![
            PieceView::Name(property_of(field, outer)),
            PieceView::Text(":"@),
        ] + completed(shape, options));
    }
}

/// Each variant that is not skipped gives its enum one value, and the enum has no others, in
/// the order of the variants.
pub proof fn law_values_of_an_enum(variants: Seq<Variant>, outer: SerdeView, end: int)
    requires
        0 <= end <= variants.len(),
        values_before(variants, outer, end) is Ok,
    ensures
        ({
            let values = values_before(variants, outer, end)->Ok_0;
            &&& forall|i: int|
                0 <= i < end ==> (#[trigger] variants[i]).unit && serde_of(variants[i].attributes@, Owner::Variant) is Ok
            &&& forall|i: int|
                0 <= i < end && !serde_of((#[trigger] variants[i]).attributes@, Owner::Variant)->Ok_0.skip
                    ==> values.contains(value_of(variants[i], outer))
            &&& forall|value: Seq<char>| #[trigger]
                values.contains(value) ==> exists|i: int|
                    0 <= i < end && !serde_of((#[trigger] variants[i]).attributes@, Owner::Variant)->Ok_0.skip && value_of(
                        variants[i],
                        outer,
                    ) == value
            &&& end > 0 ==> values_before(variants, outer, end - 1) is Ok && values.take(
                values_before(variants, outer, end - 1)->Ok_0.len() as int,
            ) == values_before(variants, outer, end - 1)->Ok_0
        }),
    decreases end,
{
    if end > 0 {
        law_values_of_an_enum(variants, outer, end - 1);
        let before = values_before(variants, outer, end - 1)->Ok_0;
        let values = values_before(variants, outer, end)->Ok_0;
        let variant = variants[end - 1];
        let local = serde_of(variant.attributes@, Owner::Variant)->Ok_0;
        assert(values.take(before.len() as int) =~= before);
        if !local.skip {
            let value = value_of(variant, outer);
            assert(values == before.push(value));
            assert(values[before.len() as int] == value);
            assert forall|other: Seq<char>| #[trigger] values.contains(other) <==> before.contains(other) || other
                == value by {
                if before.contains(other) {
                    let i = choose|i: int| 0 <= i < before.len() && before[i] == other;
                    assert(values[i] == other);
                }
            }
        }
        assert forall|value: Seq<char>| #[trigger] values.contains(value) implies exists|i: int|
            0 <= i < end && !serde_of((#[trigger] variants[i]).attributes@, Owner::Variant)->Ok_0.skip && value_of(
                variants[i],
                outer,
            ) == value by {
            if before.contains(value) {
                let i = choose|i: int|
                    0 <= i < end - 1 && !serde_of((#[trigger] variants[i]).attributes@, Owner::Variant)->Ok_0.skip
                        && value_of(variants[i], outer) == value;
                assert(variants[i].unit);
            } else {
                assert(variants[end - 1].unit);
            }
        }
    }
}

/// The value that a variant is serialized as.
pub open spec fn value_of(variant: Variant, outer: SerdeView) -> Seq<char> {
    match serde_of(variant.attributes@, Owner::Variant)->Ok_0.rename {
        Some(renaming) => renaming,
        None => renamed(variant.name@, outer.rename_all, true),
    }
}

/// A declared enum has the schema of its values, between one and 256 of them; structs without
/// fields, of several fields by position, and unions have none.
pub proof fn law_definitions_by_kind(declaration: Declaration, options: OptionsView, outer: SerdeView)
    ensures
        declaration.data matches Data::Enumeration(variants) ==> (definition_of(declaration, options, outer) matches Ok(
            definition,
        ) ==> {
            let values = values_before(variants@, outer, variants@.len() as int)->Ok_0;
            &&& values_before(variants@, outer, variants@.len() as int) is Ok
            &&& 1 <= values.len() <= 256
            &&& definition.kind == KindView::Known("string"@)
            &&& definition.rest == seq![
                PieceView::Text(",\"enum\":"@),
                PieceView::Text(json_text(JsonValue::Array(values.map_values(|value: Seq<char>| JsonValue::Text(value))))),
                PieceView::Text(extras_of(options)),
            ]
        }),
        declaration.data is Unit || declaration.data is Union ==> definition_of(declaration, options, outer) is Err,
        declaration.data matches Data::Tuple(fields) && fields@.len() != 1 ==> definition_of(declaration, options, outer)
            is Err,
        declaration.data matches Data::Tuple(fields) ==> (definition_of(declaration, options, outer) matches Ok(definition)
            ==> (shape_of(fields@[0].ty, declaration.name@, options) matches Ok(shape) && !shape.optional && definition.kind
            == shape.kind && definition.rest == seq![PieceView::Begin] + shape.rest + seq![
            PieceView::End(extras_of(options)),
        ])),
        declaration.data matches Data::Named(fields) ==> definition_of(declaration, options, outer) == object_of(
            fields@,
            declaration.name@,
            outer,
            options,
        ),
{
}

/// A resource is named by its attribute, in kebab case of at most 64 bytes; its key, where it
/// has one, is the serialized name of a `String` field that has to be there and is bounded by
/// at most 512 characters.
pub proof fn law_resources_are_declared_properly(declaration: Declaration)
    requires
        resource_of(declaration) is Ok,
    ensures
        ({
            let (name, key) = resource_of(declaration)->Ok_0;
            &&& is_label(name)
            &&& byte_count(name) <= 64
            &&& declaration.data matches Data::Named(fields) && (key matches Some(key) ==> exists|i: int|
                0 <= i < fields@.len() && is_key_of(#[trigger] fields@[i], declaration, key))
        }),
{
    let (named, key) = resource_from(
        None,
        None,
        Seq::empty(),
        entries_of(declaration.attributes@, "resource"@, declaration.attributes@.len() as int),
        0,
    )->Ok_0;
    if let Data::Named(fields) = declaration.data {
        if let Some(key) = key {
            let at = lemma_found_field(fields@, key, 0);
            reveal_strlit("String");
            reveal_strlit("Option");
            assert("String"@[0] == 'S' && "Option"@[0] == 'O');
            assert(is_key_of(fields@[at], declaration, resource_of(declaration)->Ok_0.1->0));
        }
    }
}

/// The field is a bounded `String` that has to be there and is serialized as `key`.
pub open spec fn is_key_of(field: Field, declaration: Declaration, key: Seq<char>) -> bool {
    &&& serde_of(declaration.attributes@, Owner::Type) matches Ok(outer) && is_kept(field) && has_to_be(field, outer)
        && field.name is Some && property_of(field, outer) == key
    &&& last_type(field.ty) == Some("String"@)
    &&& options_of(field.attributes@) matches Ok(options) && member_from(options.members, "maxLength"@, 0) matches Some(
        member,
    ) && number_in(Some(member.value)) matches Some(bound) && 1 <= bound <= 512
}

/// A declared type is accepted by its kind: an enum with one through 256 values that are
/// accepted, an object with at most 256 properties, and a newtype whose inner value is
/// accepted, is not optional, and is neither skipped, flattened, renamed nor defaulted.
pub proof fn law_declared_types_are_accepted(declaration: Declaration, options: OptionsView, outer: SerdeView)
    ensures
        declaration.data matches Data::Enumeration(variants) ==> {
            let values = values_before(variants@, outer, variants@.len() as int);
            definition_of(declaration, options, outer) is Ok <==> values is Ok && 1 <= values->Ok_0.len() <= 256
        },
        declaration.data matches Data::Named(fields) ==> {
            let object = fields_before(fields@, declaration.name@, outer, fields@.len() as int);
            definition_of(declaration, options, outer) is Ok <==> object is Ok && object->Ok_0.names.len() <= 256
        },
        declaration.data matches Data::Tuple(fields) ==> {
            let local = serde_of(fields@[0].attributes@, Owner::Field);
            let shape = shape_of(fields@[0].ty, declaration.name@, options);
            definition_of(declaration, options, outer) is Ok <==> {
                &&& fields@.len() == 1
                &&& local is Ok && !local->Ok_0.skip && !local->Ok_0.flatten && local->Ok_0.rename is None
                    && !local->Ok_0.default
                &&& shape is Ok && !shape->Ok_0.optional
            }
        },
{
}

/// What a definition tells of sources and of openness: an enum holds no source and is
/// closed, an object tells its own openness and that of all its properties, and a newtype
/// tells what its inner value does.
pub proof fn law_definitions_tell_sources_and_openness(
    declaration: Declaration,
    options: OptionsView,
    outer: SerdeView,
)
    requires
        definition_of(declaration, options, outer) is Ok,
    ensures
        ({
            let definition = definition_of(declaration, options, outer)->Ok_0;
            &&& declaration.data is Enumeration ==> definition.sources == seq![FlagView::Known(false)] && definition.opens
                == seq![FlagView::Known(false)]
            &&& declaration.data matches Data::Named(fields) ==> {
                let object = fields_before(fields@, declaration.name@, outer, fields@.len() as int)->Ok_0;
                &&& definition.kind == KindView::Known("object"@)
                &&& definition.sources.len() == object.sources.len() + 1 && definition.sources[0] == FlagView::Known(false)
                &&& definition.sources.skip(1) == object.sources
                &&& definition.opens.len() == object.opens.len() + 1 && definition.opens[0] == FlagView::Known(object.open)
                &&& definition.opens.skip(1) == object.opens
            }
            &&& declaration.data matches Data::Tuple(fields) ==> {
                let shape = shape_of(fields@[0].ty, declaration.name@, options)->Ok_0;
                definition.sources == seq![shape.source] && definition.opens == seq![shape.open]
            }
        }),
{
    if let Data::Named(fields) = declaration.data {
        let object = fields_before(fields@, declaration.name@, outer, fields@.len() as int)->Ok_0;
        let definition = definition_of(declaration, options, outer)->Ok_0;
        assert(definition.sources.skip(1) =~= object.sources);
        assert(definition.opens.skip(1) =~= object.opens);
    }
}

} // verus!
