//! What declarations of schemas, resources, connections, actions and extensions come to.

use sloper_extension::attributes::{
    checked_path, crate_path, format_value, literal, meta_path, meta_text, serde, validate_property, validate_text,
    Attribute, Contents, Literal, Meta, MetaValue, Numeric, Owner, MAX_PATH,
};
use sloper_extension::constraints::{options, SchemaOptions};
use sloper_extension::declaration::{
    action, action_arguments, capability, connection, documentation, extension, scope_values, types_used, ActionInput,
    ActionItem, ActionPath, Extension, ExtensionEntry, ExtensionValue, Usage,
};
use sloper_extension::derive::{validate_key, Data, Declaration, Field, Variant};
use sloper_extension::json::{Json, Number};
use sloper_extension::naming::{rename, NameRule};
use sloper_extension::schema::{complete_schema, extra_members, shape, Flag, Kind, Piece, Rule, RustType, TypeArguments};

fn path(name: &str, arguments: Vec<RustType>) -> RustType {
    let written: Vec<String> = arguments.iter().map(|ty| tokens(ty).to_owned()).collect();
    if arguments.is_empty() {
        RustType::Path { name: name.to_owned(), arguments: TypeArguments::Absent, tokens: name.to_owned() }
    } else {
        RustType::Path {
            name: name.to_owned(),
            arguments: TypeArguments::Angle { types: arguments, others: 0 },
            tokens: format!("{name} < {} >", written.join(" , ")),
        }
    }
}

fn tokens(ty: &RustType) -> &str {
    match ty {
        RustType::Array { tokens, .. } | RustType::Path { tokens, .. } => tokens,
        RustType::Borrowed(tokens) | RustType::Other(tokens) => tokens,
    }
}

fn text(value: &str) -> MetaValue {
    MetaValue::Equals(Literal::Text(value.to_owned()))
}

fn number(value: u64) -> MetaValue {
    MetaValue::Equals(Literal::Number(Numeric { number: Number::Unsigned(value), rank: value as i64, bounded: true }))
}

fn meta(name: &str, value: MetaValue) -> Meta {
    Meta { name: Some(name.to_owned()), value }
}

fn attribute(path: &str, metas: Vec<Meta>) -> Attribute {
    Attribute { path: Some(path.to_owned()), contents: Contents::Metas(metas) }
}

fn documented(line: &str) -> Attribute {
    Attribute { path: Some("doc".to_owned()), contents: Contents::Text(line.to_owned()) }
}

fn field(name: &str, ty: RustType, attributes: Vec<Attribute>) -> Field {
    Field { name: Some(name.to_owned()), ty, attributes }
}

fn declaration(name: &str, attributes: Vec<Attribute>, data: Data) -> Declaration {
    Declaration { name: name.to_owned(), lifetimes: false, generic: false, attributes, data }
}

/// The JSON text of a schema, with what other types contribute in angle brackets.
fn written(pieces: &[Piece]) -> String {
    let mut output = String::new();
    for piece in pieces {
        match piece {
            Piece::Text(text) | Piece::End(text) => output.push_str(text),
            Piece::Kind(kind) => output.push_str(&kind_text(kind)),
            Piece::Name(name) => output.push_str(&format!("\"{name}\"")),
            Piece::Rest(tokens) => output.push_str(&format!("<rest {tokens}>")),
            Piece::Number(tokens) => output.push_str(&format!("<number {tokens}>")),
            Piece::Limit(_) | Piece::Begin | Piece::Check(..) => {},
        }
    }
    output
}

fn kind_text(kind: &Kind) -> String {
    match kind {
        Kind::Known(name) => format!("\"{name}\""),
        Kind::Of(tokens) => format!("<type {tokens}>"),
    }
}

fn rules(pieces: &[Piece]) -> Vec<Rule> {
    pieces
        .iter()
        .filter_map(|piece| match piece {
            Piece::Check(rule, _, _) => Some(*rule),
            _ => None,
        })
        .collect()
}

fn schema_of(ty: RustType, options: &SchemaOptions) -> Result<String, String> {
    let found = shape(&ty, "Owner", options)?;
    Ok(written(&complete_schema(found, options)))
}

fn bounded(maximum: u64) -> Vec<Attribute> {
    vec![attribute("schema", vec![meta("max_length", number(maximum))])]
}

#[test]
fn names_follow_the_serialization_rules() {
    for (rule, expected_field, expected_variant) in [
        ("lowercase", "user_name", "username"),
        ("UPPERCASE", "USER_NAME", "USERNAME"),
        ("PascalCase", "UserName", "UserName"),
        ("camelCase", "userName", "userName"),
        ("snake_case", "user_name", "user_name"),
        ("SCREAMING_SNAKE_CASE", "USER_NAME", "USER_NAME"),
        ("kebab-case", "user-name", "user-name"),
        ("SCREAMING-KEBAB-CASE", "USER-NAME", "USER-NAME"),
    ] {
        let parsed = NameRule::parse(rule);
        assert!(parsed.is_some(), "{rule}");
        assert_eq!(rename("user_name", parsed, false), expected_field, "{rule}");
        assert_eq!(rename("UserName", parsed, true), expected_variant, "{rule}");
    }
    assert!(NameRule::parse("Train-Case").is_none());
    assert_eq!(rename("userName", None, false), "userName");
    assert_eq!(rename("straße", NameRule::parse("UPPERCASE"), false), "STRASSE");
    assert_eq!(rename("ÄrgerÜber", NameRule::parse("snake_case"), true), "ärger_über");
    assert_eq!(rename("élan_vital", NameRule::parse("PascalCase"), false), "ÉlanVital");
}

#[test]
fn property_names_and_display_texts_are_bounded() {
    for valid in ["a", "_", "A1", &"x".repeat(64)] {
        assert!(validate_property(valid).is_ok(), "{valid}");
    }
    for invalid in ["", "1a", "a-b", "é", &"x".repeat(65)] {
        assert_eq!(
            validate_property(invalid).unwrap_err(),
            "Serialized property names must match `[A-Za-z_][A-Za-z0-9_]*` and fit 64 characters."
        );
    }
    assert!(validate_text(&"é".repeat(60), 60).is_ok());
    assert_eq!(
        validate_text(&"é".repeat(61), 60).unwrap_err(),
        "Display text must be at most 60 characters without control or bidi formatting characters."
    );
    for hidden in ["a\nb", "a\u{202e}b", "a\u{061c}b", "a\u{2069}b", "a\u{85}b"] {
        assert!(validate_text(hidden, 60).is_err(), "{hidden:?}");
    }
    for valid in ["a", "a1-b2"] {
        assert!(validate_key(valid).is_ok(), "{valid}");
    }
    for invalid in ["", "1a", "-a", "a-", "a--b", "A", "a_b", &"x".repeat(65)] {
        assert!(validate_key(invalid).is_err(), "{invalid}");
    }
}

#[test]
fn literals_become_json_values() {
    let array = Literal::Array(vec![Literal::Text("a/b".to_owned()), Literal::Bool(true)]);
    assert!(matches!(literal(&array), Ok(Json::Array(items)) if items.len() == 2));
    let negative = Literal::Negative(
        Box::new(Literal::Number(Numeric { number: Number::Unsigned(5), rank: 5, bounded: true })),
        Some(Numeric { number: Number::Decimal("-5.0".to_owned()), rank: -5, bounded: true }),
    );
    assert!(matches!(literal(&negative), Ok(Json::Number(Number::Decimal(text))) if text == "-5.0"));
    let wrong = Literal::Negative(Box::new(Literal::Text("a".to_owned())), None);
    assert_eq!(literal(&wrong).unwrap_err(), "Only numeric literals can be negative.");
    assert_eq!(literal(&Literal::OtherLiteral).unwrap_err(), "Use a string, numeric, boolean, or array literal.");
    assert_eq!(literal(&Literal::Word("x".to_owned())).unwrap_err(), "Schema constraints require literal values.");
    assert_eq!(literal(&Literal::Unread("too large".to_owned())).unwrap_err(), "too large");
    assert_eq!(meta_text(&text("a")), Ok("a"));
    assert!(meta_text(&MetaValue::Absent).is_err());
    assert_eq!(format_value(&text("email")), Ok("email"));
    assert!(format_value(&text("source")).is_err());
}

#[test]
fn serialization_attributes_are_read_for_their_owner() {
    let all = vec![attribute(
        "serde",
        vec![meta("rename_all", text("camelCase")), meta("default", MetaValue::Absent)],
    )];
    let outer = serde(&all, Owner::Type).unwrap();
    assert_eq!(outer.rename_all, Some(NameRule::Camel));
    assert!(outer.default && !outer.skip && !outer.flatten);
    assert!(serde(&all, Owner::Field).is_err());
    let skipped = vec![attribute("serde", vec![meta("skip", MetaValue::Absent)])];
    assert!(serde(&skipped, Owner::Field).unwrap().skip);
    assert!(serde(&skipped, Owner::Type).is_err());
    let mixed = vec![attribute("serde", vec![meta("skip", MetaValue::Absent), meta("rename", text("a"))])];
    assert_eq!(
        serde(&mixed, Owner::Field).err().unwrap(),
        "`skip` cannot be combined with flatten, rename, or default."
    );
    let twice = vec![
        attribute("serde", vec![meta("rename", text("a"))]),
        attribute("serde", vec![meta("rename", text("b"))]),
    ];
    assert_eq!(serde(&twice, Owner::Field).err().unwrap(), "`rename` set multiple times.");
    assert!(serde(&twice, Owner::Field).is_err());
    let unknown = vec![attribute("serde", vec![meta("rename_all", text("Train-Case"))])];
    assert_eq!(serde(&unknown, Owner::Type).err().unwrap(), "Use a serde-supported `rename_all` rule.");
}

#[test]
fn options_keep_their_order_and_their_bounds() {
    let written = vec![attribute(
        "schema",
        vec![
            meta("max_length", number(20)),
            meta("title", text("A \"title\"")),
            meta("min_length", number(1)),
            meta("crate", text("::sdk")),
        ],
    )];
    let found = options(&written).unwrap();
    assert_eq!(extra_members(&found), r#","maxLength":20,"title":"A \"title\"","minLength":1"#);
    assert_eq!(found.crate_path.as_deref(), Some("::sdk"));
    let fails = |metas: Vec<Meta>| options(&vec![attribute("schema", metas)]).err().unwrap();
    assert_eq!(
        fails(vec![meta("min_length", number(3)), meta("max_length", number(2))]),
        "`minLength` must not exceed `maxLength`."
    );
    assert_eq!(
        fails(vec![meta("max_items", number(100_001))]),
        "`max_items` must be an integer from 0 through 100000."
    );
    assert_eq!(
        fails(vec![meta("max_bytes", number(0))]),
        "`max_bytes` must be an integer from 1 through 104857600."
    );
    assert_eq!(fails(vec![meta("unique_items", number(1))]), "`unique_items` requires `true` or `false`.");
    assert_eq!(fails(vec![meta("title", number(1))]), "Schema display text must be a string literal.");
    let types = |values: Vec<&str>| {
        MetaValue::Equals(Literal::Array(values.into_iter().map(|value| Literal::Text(value.to_owned())).collect()))
    };
    assert!(options(&vec![attribute("schema", vec![meta("media_types", types(vec!["a/b", "c/d"]))])]).is_ok());
    for wrong in [vec![], vec!["a"], vec!["a/ b"], vec!["a/b", "a/b"]] {
        assert_eq!(
            fails(vec![meta("media_types", types(wrong))]),
            "Media types must be a non-empty array of unique MIME-type strings."
        );
    }
    let unbounded = MetaValue::Equals(Literal::Number(Numeric {
        number: Number::Unsigned(u64::MAX),
        rank: i64::MAX,
        bounded: false,
    }));
    assert_eq!(
        fails(vec![meta("maximum", unbounded)]),
        "Numeric bounds must be finite and within ±(2^53 − 1)."
    );
    let items = vec![meta("items", MetaValue::List(vec![meta("format", text("email"))]))];
    assert_eq!(
        options(&vec![attribute("schema", items)]).unwrap().item_format.as_deref(),
        Some("email")
    );
    assert_eq!(fails(vec![meta("title", text("a")), meta("title", text("b"))]), "`title` set multiple times.");
    assert!(fails(vec![meta("pattern", text("a"))]).starts_with("Supported schema options are"));
}

#[test]
fn types_have_shapes() {
    let none = SchemaOptions::none();
    assert_eq!(
        schema_of(path("String", vec![]), &none).unwrap(),
        r#"{"type":<type String><rest String>}"#
    );
    assert_eq!(
        schema_of(path("Option", vec![path("Vec", vec![path("String", vec![])])]), &none).unwrap(),
        r#"{"type":["array","null"],"items":{"type":<type String><rest String>}}"#
    );
    assert_eq!(
        schema_of(path("BTreeMap", vec![path("String", vec![]), path("bool", vec![])]), &none).unwrap(),
        r#"{"type":"object","additionalProperties":{"type":<type bool><rest bool>}}"#
    );
    let array = RustType::Array {
        element: Box::new(path("f64", vec![])),
        length: "3".to_owned(),
        tokens: "[f64 ; 3]".to_owned(),
    };
    assert_eq!(
        schema_of(array, &none).unwrap(),
        r#"{"type":"array","items":{"type":<type f64><rest f64>},"minItems":<number 3>,"maxItems":<number 3>}"#
    );
    let mailed = options(&vec![attribute(
        "schema",
        vec![meta("items", MetaValue::List(vec![meta("format", text("email"))])), meta("max_items", number(2))],
    )])
    .unwrap();
    let found = shape(&path("Vec", vec![path("String", vec![])]), "Owner", &mailed).unwrap();
    let pieces = complete_schema(found, &mailed);
    assert_eq!(
        written(&pieces),
        r#"{"type":"array","items":{"type":<type String><rest String>,"format":"email"},"maxItems":2}"#
    );
    assert_eq!(rules(&pieces), [Rule::Items, Rule::ItemFormat, Rule::Format]);
    assert!(schema_of(path("String", vec![]), &mailed).unwrap_err().starts_with("Declare array item formats"));
    for (ty, message) in [
        (path("Option", vec![path("Option", vec![path("bool", vec![])])]), "Nested `Option` cannot be represented"),
        (path("Option", vec![]), "Spell nullable fields"),
        (path("Vec", vec![]), "Spell arrays"),
        (path("BTreeMap", vec![path("u32", vec![]), path("bool", vec![])]), "Object maps must be spelled"),
        (path("Owner", vec![]), "Recursive schema types"),
        (path("Self", vec![]), "Recursive schema types"),
        (path("u64", vec![]), "Unsupported schema type; use `String`"),
        (RustType::Borrowed("& str".to_owned()), "Unsupported schema type; use owned scalars"),
    ] {
        let refused = schema_of(ty, &none).unwrap_err();
        assert!(refused.starts_with(message), "{refused}");
    }
}

fn record() -> Declaration {
    declaration(
        "Record",
        vec![
            attribute("resource", vec![meta("name", text("records")), meta("key", MetaValue::Equals(Literal::Word("record_id".to_owned())))]),
            attribute("serde", vec![meta("rename_all", text("camelCase"))]),
        ],
        Data::Named(vec![
            field("record_id", path("String", vec![]), bounded(512)),
            field("label", path("Option", vec![path("String", vec![])]), Vec::new()),
            field("hidden", path("String", vec![]), vec![attribute("serde", vec![meta("skip", MetaValue::Absent)])]),
        ]),
    )
}

#[test]
fn objects_list_their_properties_and_what_is_required() {
    let derived = sloper_extension::derive::derive(&record(), true).unwrap();
    assert!(matches!(derived.definition.kind, Kind::Known("object")));
    assert_eq!(
        written(&derived.definition.rest),
        concat_text(&[
            r#","properties":{"recordId":{"type":<type String><rest String>,"maxLength":512},"#,
            r#""label":{"type":[<type String>,"null"]<rest String>}},"#,
            r#""required":["recordId"],"additionalProperties":false"#,
        ])
    );
    assert!(matches!(&derived.definition.sources[0], Flag::Known(false)));
    assert!(matches!(&derived.definition.sources[1], Flag::Of(tokens) if tokens == "String"));
    let part = derived.resource.unwrap();
    assert_eq!(part.name, "records");
    assert_eq!(part.key.as_deref(), Some("recordId"));
    assert!(sloper_extension::derive::derive(&record(), false).unwrap().resource.is_none());
}

fn concat_text(parts: &[&str]) -> String {
    parts.concat()
}

#[test]
fn flattened_fields_open_an_object() {
    let flatten = || vec![attribute("serde", vec![meta("flatten", MetaValue::Absent)])];
    let open = declaration(
        "Open",
        Vec::new(),
        Data::Named(vec![field("rest", path("Fields", vec![]), flatten())]),
    );
    let derived = sloper_extension::derive::derive(&open, false).unwrap();
    assert_eq!(
        written(&derived.definition.rest),
        r#","properties":{},"required":[],"additionalProperties":true"#
    );
    assert!(matches!(&derived.definition.opens[0], Flag::Known(true)));
    let twice = declaration(
        "Open",
        Vec::new(),
        Data::Named(vec![
            field("rest", path("Fields", vec![]), flatten()),
            field("more", path("Fields", vec![]), flatten()),
        ]),
    );
    assert_eq!(sloper_extension::derive::derive(&twice, false).err().unwrap(), "Only one flattened `Fields` property is permitted.");
    let other = declaration(
        "Open",
        Vec::new(),
        Data::Named(vec![field("rest", path("String", vec![]), flatten())]),
    );
    assert!(sloper_extension::derive::derive(&other, false).err().unwrap().starts_with("Only `Fields` may use"));
    let same = declaration(
        "Same",
        Vec::new(),
        Data::Named(vec![
            field("a", path("String", vec![]), Vec::new()),
            field("b", path("String", vec![]), vec![attribute("serde", vec![meta("rename", text("a"))])]),
        ]),
    );
    assert_eq!(sloper_extension::derive::derive(&same, false).err().unwrap(), "Serialized schema property names must be unique.");
}

#[test]
fn enums_list_their_values() {
    let variant = |name: &str, attributes| Variant { name: name.to_owned(), unit: true, attributes };
    let level = declaration(
        "Level",
        vec![attribute("serde", vec![meta("rename_all", text("snake_case"))])],
        Data::Enumeration(vec![
            variant("VeryLow", Vec::new()),
            variant("Hidden", vec![attribute("serde", vec![meta("skip", MetaValue::Absent)])]),
            variant("High", vec![attribute("serde", vec![meta("rename", text("top"))])]),
        ]),
    );
    let derived = sloper_extension::derive::derive(&level, false).unwrap();
    assert!(matches!(derived.definition.kind, Kind::Known("string")));
    assert_eq!(written(&derived.definition.rest), r#","enum":["very_low","top"]"#);
    let empty = declaration("Level", Vec::new(), Data::Enumeration(Vec::new()));
    assert!(sloper_extension::derive::derive(&empty, false).err().unwrap().contains("between one and 256"));
    let carrying = declaration(
        "Level",
        Vec::new(),
        Data::Enumeration(vec![Variant { name: "A".to_owned(), unit: false, attributes: Vec::new() }]),
    );
    assert!(sloper_extension::derive::derive(&carrying, false).err().unwrap().starts_with("Data-carrying enums"));
    let twice = declaration(
        "Level",
        Vec::new(),
        Data::Enumeration(vec![variant("A", Vec::new()), variant("A", Vec::new())]),
    );
    assert_eq!(sloper_extension::derive::derive(&twice, false).err().unwrap(), "Serialized enum values must be unique.");
}

#[test]
fn newtypes_take_the_shape_of_their_value() {
    let wrapper = |ty| declaration("Name", bounded(9), Data::Tuple(vec![Field { name: None, ty, attributes: Vec::new() }]));
    let derived = sloper_extension::derive::derive(&wrapper(path("String", vec![])), false).unwrap();
    assert!(matches!(&derived.definition.kind, Kind::Of(tokens) if tokens == "String"));
    assert_eq!(written(&derived.definition.rest), r#"<rest String>,"maxLength":9"#);
    assert_eq!(derived.rules, [Rule::Length]);
    assert!(sloper_extension::derive::derive(&wrapper(path("Option", vec![path("String", vec![])])), false).is_err());
    let union = declaration("Name", Vec::new(), Data::Union);
    assert!(sloper_extension::derive::derive(&union, false).err().unwrap().starts_with("Unions are unsupported"));
    let unit = declaration("Name", Vec::new(), Data::Unit);
    assert!(sloper_extension::derive::derive(&unit, false).err().unwrap().starts_with("Use a named-field object"));
    let borrowed = Declaration { lifetimes: true, ..record() };
    assert!(sloper_extension::derive::derive(&borrowed, false).err().unwrap().starts_with("Schemas own their data"));
}

#[test]
fn resource_keys_are_required_bounded_strings() {
    let keyed = |attributes: Vec<Attribute>, ty: RustType| {
        let mut declared = record();
        declared.data = Data::Named(vec![field("record_id", ty, attributes)]);
        sloper_extension::derive::derive(&declared, true).err()
    };
    assert!(keyed(bounded(1), path("String", vec![])).is_none());
    for (attributes, ty) in [
        (bounded(513), path("String", vec![])),
        (bounded(0), path("String", vec![])),
        (Vec::new(), path("String", vec![])),
        (bounded(9), path("Option", vec![path("String", vec![])])),
    ] {
        assert!(keyed(attributes, ty).unwrap().starts_with("A resource key must be a required `String`"));
    }
    let mut defaulted = bounded(9);
    defaulted.push(attribute("serde", vec![meta("default", MetaValue::Absent)]));
    assert!(keyed(defaulted, path("String", vec![])).is_some());
    let mut other = record();
    other.data = Data::Named(vec![field("id", path("String", vec![]), bounded(9))]);
    assert_eq!(sloper_extension::derive::derive(&other, true).err().unwrap(), "The resource key must name a declared property.");
    let mut unnamed = record();
    unnamed.attributes.remove(0);
    assert!(sloper_extension::derive::derive(&unnamed, true).err().unwrap().starts_with("Declare `#[resource("));
}

fn ledger(scopes: Vec<&str>) -> Declaration {
    declaration(
        "Ledger",
        vec![attribute(
            "connection",
            vec![
                meta("name", text("ledger")),
                meta("profile", text("acme.ledger")),
                meta(
                    "scopes",
                    MetaValue::Equals(Literal::Array(
                        scopes.into_iter().map(|scope| Literal::Text(scope.to_owned())).collect(),
                    )),
                ),
            ],
        )],
        Data::Unit,
    )
}

#[test]
fn connections_declare_a_profile_and_scopes() {
    let part = connection(&ledger(vec!["items.read", "items.write"])).unwrap();
    assert_eq!(
        part.part,
        r#"{"kind":"connection","name":"ledger","profile":"acme.ledger","scopes":["items.read","items.write"]}"#
    );
    assert_eq!(part.scopes, ["items.read", "items.write"]);
    for wrong in [vec![""], vec!["a b"], vec!["a", "a"], vec!["a\u{2003}b"]] {
        assert_eq!(
            connection(&ledger(wrong)).err().unwrap(),
            "Scopes must be non-empty, unique strings without whitespace."
        );
    }
    assert_eq!(
        connection(&ledger(vec![])).err().unwrap(),
        "Declare between one and 32 unique connection scopes."
    );
    let many: Vec<Literal> = (0..33).map(|index| Literal::Text(format!("s{index}"))).collect();
    assert!(scope_values(&many).is_err());
    assert_eq!(
        scope_values(&vec![Literal::Bool(true)]).err().unwrap(),
        "Each scope must be a string literal."
    );
    let generic = Declaration { generic: true, ..ledger(vec!["a"]) };
    assert!(connection(&generic).err().unwrap().contains("cannot have generic parameters"));
    let fielded = Declaration { data: Data::Named(Vec::new()), ..ledger(vec!["a"]) };
    assert!(connection(&fielded).err().unwrap().starts_with("Declare a connection as a unit struct"));
    let bare = Declaration { attributes: Vec::new(), ..ledger(vec!["a"]) };
    assert_eq!(
        connection(&bare).err().unwrap(),
        "A connection declaration requires `name = \"ledger\"`."
    );
}

fn item(name: &str, inputs: Vec<ActionInput>) -> ActionItem {
    ActionItem {
        name: name.to_owned(),
        asynchronous: true,
        plain: true,
        attributes: vec![documented(" Trim whitespace "), documented(" from labels.")],
        inputs,
    }
}

fn handle(name: &str, ty: &str) -> ActionInput {
    ActionInput::Typed(path(name, vec![path(ty, vec![])]))
}

#[test]
fn actions_take_handles_or_parameters() {
    let plan = action(
        &Vec::new(),
        Ok(item("normalize_all", vec![handle("Connection", "Ledger"), handle("Writer", "Record")])),
    )
    .unwrap();
    assert_eq!(plan.name, "normalize-all");
    assert_eq!(plan.module, "__sloper_action_normalize_all");
    assert_eq!(plan.description.as_deref(), Some("Trim whitespace from labels."));
    assert_eq!(types_used(&plan.arguments, Usage::Writer), ["Record"]);
    assert_eq!(types_used(&plan.arguments, Usage::Connection), ["Ledger"]);
    let fails = |inputs| action_arguments(&inputs).err().unwrap();
    assert!(fails(vec![handle("Reader", "A"), handle("Reader", "A")]).starts_with("Repeated capability handles"));
    assert!(fails(vec![handle("Reader", "A"), ActionInput::Typed(path("Options", vec![]))])
        .starts_with("Readers exclude owned parameters"));
    assert!(fails(vec![
        ActionInput::Typed(path("Options", vec![])),
        ActionInput::Typed(path("More", vec![])),
    ])
    .starts_with("An action accepts at most one"));
    assert!(fails(vec![handle("Connection", "A"), handle("Connection", "B"), handle("Writer", "C")])
        .starts_with("An action with a writer"));
    assert!(fails(vec![ActionInput::Receiver]).starts_with("Actions cannot take a receiver"));
    assert!(fails(vec![ActionInput::Pattern]).starts_with("Name each action argument"));
    assert!(fails(vec![ActionInput::Typed(RustType::Borrowed("& str".to_owned()))])
        .starts_with("Action parameters must be owned"));
    assert!(matches!(capability(&path("Reader", vec![path("A", vec![])])), Ok(Some((Usage::Reader, ty))) if ty == "A"));
    assert!(capability(&path("Reader", vec![])).is_err());
    assert!(capability(&path("Reader", vec![path("A", vec![]), path("B", vec![])])).is_err());
    assert!(matches!(capability(&path("Options", vec![])), Ok(None)));
}

#[test]
fn crates_are_named_by_paths() {
    let words = "Use the path of the SDK crate.";
    let chosen = |path: &str| vec![attribute("schema", vec![meta("crate", text(path)), meta("other", number(1))])];
    for wrong in ["1 bad", "", "a b", "a::", "a-b"] {
        assert_eq!(options(&chosen(wrong)).err().unwrap(), words);
        let named = vec![meta("crate", text(wrong))];
        assert_eq!(action(&named, Ok(item("run", Vec::new()))).err().unwrap(), words);
        let entries = vec![entry("crate", ExtensionValue::Text(wrong.to_owned()))];
        assert_eq!(Extension::parse(&entries).err().unwrap(), words);
        let mut declared = ledger(vec!["items.read"]);
        declared.attributes.push(attribute("connection", vec![meta("crate", text(wrong))]));
        assert_eq!(connection(&declared).err().unwrap(), words);
    }
    assert!(options(&chosen("::sdk::inner")).err().unwrap().starts_with("Supported schema options"));
    let long = "a::".repeat(1000) + "b";
    assert!(crate_path(&long));
    assert!(crate_path("a<b>"));
    assert!(crate_path(&format!("a<{}b>", "&".repeat(MAX_PATH - 4))));
    assert!(!crate_path(&format!("{}b{}", "a<".repeat(100_000), ">".repeat(100_000))));
    assert_eq!(checked_path("a", true), Ok("a".to_owned()));
    assert_eq!(checked_path("a", false), Err(words.to_owned()));
    assert_eq!(meta_path(&text("::sdk")), Ok("::sdk".to_owned()));
    assert_eq!(meta_path(&number(1)), Err("expected string literal".to_owned()));
}

#[test]
fn actions_are_plain_asynchronous_functions() {
    let blocking = ActionItem { asynchronous: false, ..item("run", Vec::new()) };
    assert!(action(&Vec::new(), Ok(blocking)).err().unwrap().starts_with("An action must be `async fn`"));
    let generic = ActionItem { plain: false, ..item("run", Vec::new()) };
    assert!(action(&Vec::new(), Ok(generic)).err().unwrap().starts_with("Actions must be concrete"));
    assert!(action(&Vec::new(), Ok(item("Run", Vec::new()))).is_err());
    assert_eq!(action(&Vec::new(), Err("expected fn".to_owned())).err().unwrap(), "expected fn");
    let renamed = vec![meta("name", text("a"))];
    assert!(action(&renamed, Ok(item("run", Vec::new()))).err().unwrap().starts_with("The action name is derived"));
    let sdk = vec![meta("crate", text("::sdk"))];
    assert_eq!(action(&sdk, Ok(item("run", Vec::new()))).unwrap().crate_path.as_deref(), Some("::sdk"));
    assert_eq!(documentation(&Vec::new()), Ok(None));
    assert!(documentation(&vec![documented(&"d".repeat(201))]).is_err());
}

fn entry(key: &str, value: ExtensionValue) -> ExtensionEntry {
    ExtensionEntry { key: key.to_owned(), value }
}

fn listed(names: &[&str]) -> ExtensionValue {
    ExtensionValue::Actions(
        names
            .iter()
            .map(|name| ActionPath {
                tokens: format!("actions :: {name}"),
                prefix: "actions :: ".to_owned(),
                last: name.to_string(),
                generic: false,
            })
            .collect(),
    )
}

fn named(name: &str) -> ExtensionEntry {
    entry("name", ExtensionValue::Text(name.to_owned()))
}

#[test]
fn extensions_list_their_actions() {
    let plan = extension(&vec![
        named("acme.records"),
        entry("label", ExtensionValue::Text("Records".to_owned())),
        entry("configuration", ExtensionValue::Type("Settings".to_owned())),
        entry("actions", listed(&["normalize", "pull"])),
    ])
    .unwrap();
    assert_eq!(plan.name, "acme.records");
    assert_eq!(plan.label.as_deref(), Some("Records"));
    assert_eq!(plan.configuration.as_deref(), Some("Settings"));
    assert_eq!(plan.modules, ["actions :: __sloper_action_normalize", "actions :: __sloper_action_pull"]);
    let fails = |entries: Vec<ExtensionEntry>| extension(&entries).err().unwrap();
    assert_eq!(fails(Vec::new()), "Declare `name: \"publisher.extension\"`.");
    assert_eq!(fails(vec![named("acme.records")]), "Declare an explicit `actions: [run]` list.");
    assert_eq!(fails(vec![named("a.b"), named("a.b")]), "`name` set multiple times.");
    assert!(fails(vec![entry("version", ExtensionValue::Text("1".to_owned()))])
        .starts_with("Supported extension fields"));
    assert!(fails(vec![named("records"), entry("actions", listed(&["a"]))])
        .starts_with("Extension names require a publisher namespace"));
    assert!(fails(vec![named("acme.Records"), entry("actions", listed(&["a"]))]).starts_with("Manifest keys"));
    assert!(fails(vec![named("acme.records"), entry("actions", listed(&[]))])
        .starts_with("Declare between one and 64"));
    assert!(fails(vec![named("acme.records"), entry("actions", listed(&["a", "a"]))])
        .starts_with("Action paths cannot repeat"));
    let generic = ExtensionValue::Actions(vec![ActionPath {
        tokens: "run < A >".to_owned(),
        prefix: String::new(),
        last: "run".to_owned(),
        generic: true,
    }]);
    assert!(fails(vec![named("acme.records"), entry("actions", generic)])
        .starts_with("Actions cannot take generic arguments"));
    let entries = vec![named("a.b"), entry("actions", listed(&["run"])), entry("crate", ExtensionValue::Text("::sdk".to_owned()))];
    assert_eq!(Extension::parse(&entries).unwrap().crate_path.as_deref(), Some("::sdk"));
}
