//! Schemas of declared types.

use vstd::prelude::*;
use vstd::string::*;

use crate::constraints::{member_views, no_options, MemberView, OptionMember, OptionsView, SchemaOptions};
use crate::json::{json_text, write_json, Json, JsonValue};
use crate::text::{push_text, same_text};

verus! {

/// What stands in angle brackets behind the name of a type, if anything.
pub enum TypeArguments {
    Absent,
    Angle {
        /// The arguments that are types.
        types: Vec<RustType>,
        /// The number of other arguments.
        others: usize,
    },
    Parenthesized,
}

/// A type as it is written in a declaration.
pub enum RustType {
    Array {
        element: Box<RustType>,
        /// The length as it is written.
        length: String,
        /// The type as it is written.
        tokens: String,
    },
    Path {
        /// The last segment of the path.
        name: String,
        arguments: TypeArguments,
        /// The type as it is written.
        tokens: String,
    },
    /// A reference or a pointer, as it is written.
    Borrowed(String),
    /// Another type, as it is written.
    Other(String),
}

/// A type as it is written.
pub open spec fn tokens_of(ty: RustType) -> Seq<char> {
    match ty {
        RustType::Array { tokens, .. } => tokens@,
        RustType::Path { tokens, .. } => tokens@,
        RustType::Borrowed(tokens) => tokens@,
        RustType::Other(tokens) => tokens@,
    }
}

/// Returns a type as it is written.
pub fn type_tokens(ty: &RustType) -> (tokens: &str)
    ensures
        tokens@ == tokens_of(*ty),
{
    match ty {
        RustType::Array { tokens, .. } => tokens.as_str(),
        RustType::Path { tokens, .. } => tokens.as_str(),
        RustType::Borrowed(tokens) => tokens.as_str(),
        RustType::Other(tokens) => tokens.as_str(),
    }
}

/// The last segment of a type's path.
pub open spec fn last_type(ty: RustType) -> Option<Seq<char>> {
    match ty {
        RustType::Path { name, .. } => Some(name@),
        _ => None,
    }
}

/// Whether the last segment of a type's path is `name`.
pub fn is_type(ty: &RustType, name: &str) -> (found: bool)
    ensures
        found == (last_type(*ty) == Some(name@)),
{
    match ty {
        RustType::Path { name: found, .. } => same_text(found.as_str(), name),
        _ => false,
    }
}

/// The JSON type of a schema.
pub enum Kind {
    Known(&'static str),
    /// That of the type written so.
    Of(String),
}

/// What the JSON type of a schema is.
pub ghost enum KindView {
    Known(Seq<char>),
    Of(Seq<char>),
}

impl View for Kind {
    type V = KindView;

    open spec fn view(&self) -> KindView {
        match self {
            Kind::Known(name) => KindView::Known(name@),
            Kind::Of(tokens) => KindView::Of(tokens@),
        }
    }
}

impl Kind {
    pub(crate) fn copy(&self) -> (copied: Kind)
        ensures
            copied@ == self@,
    {
        match self {
            Kind::Known(name) => Kind::Known(name),
            Kind::Of(tokens) => Kind::Of(tokens.clone()),
        }
    }
}

/// Whether something holds of a schema.
pub enum Flag {
    Known(bool),
    /// As for the type written so.
    Of(String),
}

/// Whether something holds of a schema.
pub ghost enum FlagView {
    Known(bool),
    Of(Seq<char>),
}

impl View for Flag {
    type V = FlagView;

    open spec fn view(&self) -> FlagView {
        match self {
            Flag::Known(value) => FlagView::Known(*value),
            Flag::Of(tokens) => FlagView::Of(tokens@),
        }
    }
}

impl Flag {
    pub(crate) fn copy(&self) -> (copied: Flag)
        ensures
            copied@ == self@,
    {
        match self {
            Flag::Known(value) => Flag::Known(*value),
            Flag::Of(tokens) => Flag::Of(tokens.clone()),
        }
    }
}

/// What several flags are.
pub open spec fn flag_views(flags: Seq<Flag>) -> Seq<FlagView> {
    flags.map_values(|flag: Flag| flag@)
}

/// A condition that a keyword puts on the type it is set for.
#[derive(Clone, Copy, Debug, PartialEq, Eq, Structural)]
pub enum Rule {
    /// A string that is no managed source.
    Format,
    /// A string.
    Length,
    /// A managed source.
    Source,
    /// A number or an integer.
    Bound,
    /// An array.
    Items,
    /// An array whose items have a format.
    ItemFormat,
}

/// A piece of a schema's JSON text.
pub enum Piece {
    /// The text itself.
    Text(String),
    /// The JSON type, in quotes.
    Kind(Kind),
    /// A name, in quotes.
    Name(String),
    /// What the schema of the type written so holds behind its JSON type.
    Rest(String),
    /// The number written so.
    Number(String),
    /// The number written so is at most 100,000.
    Limit(String),
    /// Here members begin that are merged with others.
    Begin,
    /// Here the members end that are merged with these.
    End(String),
    /// The condition holds of a type of this kind, which is a managed source or not.
    Check(Rule, Kind, Flag),
}

/// What a piece of a schema is.
pub ghost enum PieceView {
    Text(Seq<char>),
    Kind(KindView),
    Name(Seq<char>),
    Rest(Seq<char>),
    Number(Seq<char>),
    Limit(Seq<char>),
    Begin,
    End(Seq<char>),
    Check(Rule, KindView, FlagView),
}

impl View for Piece {
    type V = PieceView;

    open spec fn view(&self) -> PieceView {
        match self {
            Piece::Text(text) => PieceView::Text(text@),
            Piece::Kind(kind) => PieceView::Kind(kind@),
            Piece::Name(name) => PieceView::Name(name@),
            Piece::Rest(tokens) => PieceView::Rest(tokens@),
            Piece::Number(tokens) => PieceView::Number(tokens@),
            Piece::Limit(tokens) => PieceView::Limit(tokens@),
            Piece::Begin => PieceView::Begin,
            Piece::End(text) => PieceView::End(text@),
            Piece::Check(rule, kind, flag) => PieceView::Check(*rule, kind@, flag@),
        }
    }
}

/// What several pieces are.
pub open spec fn piece_views(pieces: Seq<Piece>) -> Seq<PieceView> {
    pieces.map_values(|piece: Piece| piece@)
}

pub(crate) fn put(pieces: &mut Vec<Piece>, piece: Piece)
    ensures
        piece_views(final(pieces)@) == piece_views(old(pieces)@).push(piece@),
{
    let ghost before = pieces@;
    pieces.push(piece);
    assert(piece_views(pieces@) =~= piece_views(before).push(piece@));
}

pub(crate) fn put_all(pieces: &mut Vec<Piece>, more: Vec<Piece>)
    ensures
        piece_views(final(pieces)@) == piece_views(old(pieces)@) + piece_views(more@),
{
    let ghost before = pieces@;
    let mut rest = more;
    pieces.append(&mut rest);
    assert(piece_views(pieces@) =~= piece_views(before) + piece_views(more@));
}

pub(crate) fn put_text(pieces: &mut Vec<Piece>, text: &str)
    ensures
        piece_views(final(pieces)@) == piece_views(old(pieces)@).push(PieceView::Text(text@)),
{
    put(pieces, Piece::Text(text.to_owned()));
}

/// The condition that a keyword puts on its type.
pub open spec fn rule_of(key: Seq<char>) -> Option<Rule> {
    if key == "format"@ {
        Some(Rule::Format)
    } else if key == "minLength"@ || key == "maxLength"@ {
        Some(Rule::Length)
    } else if key == "mediaTypes"@ || key == "maxBytes"@ {
        Some(Rule::Source)
    } else if key == "minimum"@ || key == "maximum"@ {
        Some(Rule::Bound)
    } else if key == "minItems"@ || key == "maxItems"@ || key == "uniqueItems"@ {
        Some(Rule::Items)
    } else {
        None
    }
}

fn rule(key: &str) -> (rule: Option<Rule>)
    ensures
        rule == rule_of(key@),
{
    if same_text(key, "format") {
        Some(Rule::Format)
    } else if same_text(key, "minLength") || same_text(key, "maxLength") {
        Some(Rule::Length)
    } else if same_text(key, "mediaTypes") || same_text(key, "maxBytes") {
        Some(Rule::Source)
    } else if same_text(key, "minimum") || same_text(key, "maximum") {
        Some(Rule::Bound)
    } else if same_text(key, "minItems") || same_text(key, "maxItems") || same_text(key, "uniqueItems") {
        Some(Rule::Items)
    } else {
        None
    }
}

/// The conditions that the first `end` keywords put on their type.
pub open spec fn rules_of(members: Seq<MemberView>, end: int) -> Seq<Rule>
    decreases end,
{
    if end <= 0 {
        Seq::empty()
    } else {
        let earlier = rules_of(members, end - 1);
        match rule_of(members[end - 1].key) {
            Some(rule) => earlier.push(rule),
            None => earlier,
        }
    }
}

/// The conditions that options put on the type they are set for.
pub open spec fn all_rules(options: OptionsView) -> Seq<Rule> {
    let rules = rules_of(options.members, options.members.len() as int);
    if options.item_format is Some {
        rules.push(Rule::ItemFormat)
    } else {
        rules
    }
}

/// Collects the conditions that options put on the type they are set for.
pub fn constraint_checks(options: &SchemaOptions) -> (rules: Vec<Rule>)
    ensures
        rules@ == all_rules(options@),
{
    let ghost shown = options@.members;
    let mut rules: Vec<Rule> = Vec::new();
    let mut index: usize = 0;
    while index < options.members.len()
        invariant
            index <= options.members.len(),
            shown == member_views(options.members@),
            rules@ == rules_of(shown, index as int),
        decreases options.members.len() - index,
    {
        assert(shown[index as int] == options.members@[index as int]@);
        if let Some(rule) = rule(options.members[index].key) {
            rules.push(rule);
        }
        index += 1;
    }
    assert(shown.len() == options.members@.len());
    if options.item_format.is_some() {
        rules.push(Rule::ItemFormat);
    }
    rules
}

/// The JSON text of the first `end` keywords, a comma before each.
pub open spec fn extra_text(members: Seq<MemberView>, end: int) -> Seq<char>
    decreases end,
{
    if end <= 0 {
        Seq::empty()
    } else {
        let member = members[end - 1];
        extra_text(members, end - 1) + ","@ + json_text(JsonValue::Text(member.key)) + ":"@ + json_text(member.value)
    }
}

/// The JSON text of the keywords of options, a comma before each.
pub open spec fn extras_of(options: OptionsView) -> Seq<char> {
    extra_text(options.members, options.members.len() as int)
}

/// Writes the keywords of options, a comma before each.
pub fn extra_members(options: &SchemaOptions) -> (text: String)
    ensures
        text@ == extras_of(options@),
{
    let ghost shown = options@.members;
    let mut text = String::new();
    let mut index: usize = 0;
    while index < options.members.len()
        invariant
            index <= options.members.len(),
            shown == member_views(options.members@),
            text@ == extra_text(shown, index as int),
        decreases options.members.len() - index,
    {
        let member = &options.members[index];
        assert(shown[index as int] == member@);
        push_text(&mut text, ",");
        push_text(&mut text, write_json(&Json::Text(member.key.to_owned())).as_str());
        push_text(&mut text, ":");
        push_text(&mut text, write_json(&member.value).as_str());
        index += 1;
    }
    assert(shown.len() == options.members@.len());
    text
}

/// The options for the items of an array: the format that the array demands of them.
pub open spec fn item_options_of(options: OptionsView) -> OptionsView {
    OptionsView {
        members: match options.item_format {
            Some(format) => seq![MemberView { key: "format"@, value: JsonValue::Text(format), rank: None }],
            None => Seq::empty(),
        },
        item_format: None,
        crate_path: None,
    }
}

/// Returns the options for the items of an array.
pub fn item_options(options: &SchemaOptions) -> (items: SchemaOptions)
    ensures
        items@ == item_options_of(options@),
{
    let mut items = SchemaOptions::none();
    if let Some(format) = &options.item_format {
        items.members.push(OptionMember { key: "format", value: Json::Text(format.clone()), rank: None });
    }
    assert(member_views(items.members@) =~= item_options_of(options@).members);
    items
}

/// The shape of a type: its schema, but for what options add to it.
pub struct Shape {
    pub kind: Kind,
    /// What stands behind the JSON type.
    pub rest: Vec<Piece>,
    /// It holds a managed source.
    pub source: Flag,
    /// It may be null.
    pub optional: bool,
    /// It takes members that are not declared.
    pub open: Flag,
}

/// What the shape of a type is.
pub ghost struct ShapeView {
    pub kind: KindView,
    pub rest: Seq<PieceView>,
    pub source: FlagView,
    pub optional: bool,
    pub open: FlagView,
}

impl View for Shape {
    type V = ShapeView;

    open spec fn view(&self) -> ShapeView {
        ShapeView {
            kind: self.kind@,
            rest: piece_views(self.rest@),
            source: self.source@,
            optional: self.optional,
            open: self.open@,
        }
    }
}

/// Conditions as pieces of a schema.
pub open spec fn check_pieces(rules: Seq<Rule>, kind: KindView, source: FlagView) -> Seq<PieceView> {
    rules.map_values(|rule: Rule| PieceView::Check(rule, kind, source))
}

/// The schema of a shape under options.
pub open spec fn completed(shape: ShapeView, options: OptionsView) -> Seq<PieceView> {
    let typed = if shape.optional {
        seq![PieceView::Text("{\"type\":["@), PieceView::Kind(shape.kind), PieceView::Text(",\"null\"]"@)]
    } else {
        seq![PieceView::Text("{\"type\":"@), PieceView::Kind(shape.kind)]
    };
    check_pieces(all_rules(options), shape.kind, shape.source) + typed + seq![PieceView::Begin] + shape.rest + seq![
        PieceView::End(extras_of(options)),
        PieceView::Text("}"@),
    ]
}

/// Writes the schema of a shape under options.
pub fn complete_schema(shape: Shape, options: &SchemaOptions) -> (pieces: Vec<Piece>)
    ensures
        piece_views(pieces@) == completed(shape@, options@),
{
    let ghost whole = shape@;
    let rules = constraint_checks(options);
    let ghost checks = check_pieces(rules@, whole.kind, whole.source);
    let mut pieces: Vec<Piece> = Vec::new();
    let mut index: usize = 0;
    assert(piece_views(pieces@) =~= checks.take(0));
    while index < rules.len()
        invariant
            index <= rules.len(),
            shape@ == whole,
            checks == check_pieces(rules@, whole.kind, whole.source),
            piece_views(pieces@) == checks.take(index as int),
        decreases rules.len() - index,
    {
        put(&mut pieces, Piece::Check(rules[index], shape.kind.copy(), shape.source.copy()));
        assert(checks.take(index + 1) =~= checks.take(index as int).push(checks[index as int]));
        index += 1;
    }
    assert(checks.take(checks.len() as int) =~= checks);
    if shape.optional {
        put_text(&mut pieces, "{\"type\":[");
        put(&mut pieces, Piece::Kind(shape.kind));
        put_text(&mut pieces, ",\"null\"]");
    } else {
        put_text(&mut pieces, "{\"type\":");
        put(&mut pieces, Piece::Kind(shape.kind));
    }
    put(&mut pieces, Piece::Begin);
    put_all(&mut pieces, shape.rest);
    put(&mut pieces, Piece::End(extra_members(options)));
    put_text(&mut pieces, "}");
    assert(piece_views(pieces@) =~= completed(whole, options@));
    pieces
}

/// A type that no schema describes.
pub open spec fn is_unsupported(name: Seq<char>) -> bool {
    ||| name == "u64"@ || name == "i64"@ || name == "u128"@ || name == "i128"@ || name == "usize"@ || name == "isize"@
    ||| name == "u8"@ || name == "i8"@ || name == "u16"@ || name == "i16"@ || name == "f32"@ || name == "PathBuf"@
    ||| name == "Path"@ || name == "Box"@ || name == "Rc"@ || name == "Arc"@ || name == "HashMap"@ || name == "HashSet"@
    ||| name == "Value"@ || name == "Fields"@
}

fn unsupported(name: &str) -> (found: bool)
    ensures
        found == is_unsupported(name@),
{
    same_text(name, "u64") || same_text(name, "i64") || same_text(name, "u128") || same_text(name, "i128") || same_text(
        name,
        "usize",
    ) || same_text(name, "isize") || same_text(name, "u8") || same_text(name, "i8") || same_text(name, "u16")
        || same_text(name, "i16") || same_text(name, "f32") || same_text(name, "PathBuf") || same_text(name, "Path")
        || same_text(name, "Box") || same_text(name, "Rc") || same_text(name, "Arc") || same_text(name, "HashMap")
        || same_text(name, "HashSet") || same_text(name, "Value") || same_text(name, "Fields")
}

/// What is wrong with a type in the declaration of `owner` that is no array, if anything.
pub open spec fn path_fault(ty: RustType, owner: Seq<char>) -> Option<Seq<char>> {
    match ty {
        RustType::Path { name, arguments, .. } => if name@ == owner || name@ == "Self"@ {
            Some("Recursive schema types are unsupported; remove the recursive property."@)
        } else if is_unsupported(name@) {
            Some(
                "Unsupported schema type; use `String`, `bool`, `f64`, `i32`, `u32`, a derived user type, or an explicitly supported container."@,
            )
        } else if arguments is Parenthesized {
            Some("Function types cannot have a schema."@)
        } else {
            None
        },
        _ => Some(
            "Unsupported schema type; use owned scalars, objects, unit enums, `Option`, `Vec`, arrays, or `BTreeMap<String, T>`."@,
        ),
    }
}

/// Checks a type in the declaration of `owner` that is no array.
pub fn path_arguments(ty: &RustType, owner: &str) -> (valid: Result<(), String>)
    ensures
        match path_fault(*ty, owner@) {
            None => valid == Ok::<(), String>(()),
            Some(words) => valid matches Err(message) && message@ == words,
        },
{
    match ty {
        RustType::Path { name, arguments, .. } => {
            if same_text(name.as_str(), owner) || same_text(name.as_str(), "Self") {
                return Err("Recursive schema types are unsupported; remove the recursive property.".to_owned());
            }
            if unsupported(name.as_str()) {
                return Err(
                    "Unsupported schema type; use `String`, `bool`, `f64`, `i32`, `u32`, a derived user type, or an explicitly supported container.".to_owned(),
                );
            }
            match arguments {
                TypeArguments::Parenthesized => Err("Function types cannot have a schema.".to_owned()),
                _ => Ok(()),
            }
        },
        _ => Err(
            "Unsupported schema type; use owned scalars, objects, unit enums, `Option`, `Vec`, arrays, or `BTreeMap<String, T>`.".to_owned(),
        ),
    }
}

/// The shape of a type in the declaration of `owner`, or what is wrong with it.
pub open spec fn shape_of(ty: RustType, owner: Seq<char>, options: OptionsView) -> Result<ShapeView, Seq<char>>
    decreases ty,
{
    match ty {
        RustType::Array { element, length, .. } => match shape_of(*element, owner, no_options()) {
            Err(words) => Err(words),
            Ok(item) => Ok(
                ShapeView {
                    kind: KindView::Known("array"@),
                    rest: seq![PieceView::Limit(length@), PieceView::Text(",\"items\":"@)] + completed(
                        item,
                        item_options_of(options),
                    ) + seq![
                        PieceView::Text(",\"minItems\":"@),
                        PieceView::Number(length@),
                        PieceView::Text(",\"maxItems\":"@),
                        PieceView::Number(length@),
                    ],
                    source: item.source,
                    optional: false,
                    open: item.open,
                },
            ),
        },
        _ => match path_fault(ty, owner) {
            Some(words) => Err(words),
            None => match ty {
                RustType::Path { name, arguments, tokens } => if name@ == "Option"@ {
                    match arguments {
                        TypeArguments::Angle { types, .. } => if types@.len() == 1 {
                            proof {
                                assert(decreases_to!(ty => ty->arguments));
                                assert(decreases_to!(ty->arguments => ty->arguments->types));
                                assert(decreases_to!(types => types@));
                                assert(decreases_to!(types@ => types@[0]));
                            }
                            match shape_of(types@[0], owner, options) {
                                Err(words) => Err(words),
                                Ok(inner) => if inner.optional {
                                    Err("Nested `Option` cannot be represented; use one `Option<T>`."@)
                                } else {
                                    Ok(ShapeView { optional: true, ..inner })
                                },
                            }
                        } else {
                            Err("Spell nullable fields as `Option<T>`."@)
                        },
                        _ => Err("Spell nullable fields as `Option<T>`."@),
                    }
                } else if name@ == "Vec"@ {
                    match arguments {
                        TypeArguments::Angle { types, .. } => if types@.len() == 1 {
                            proof {
                                assert(decreases_to!(ty => ty->arguments));
                                assert(decreases_to!(ty->arguments => ty->arguments->types));
                                assert(decreases_to!(types => types@));
                                assert(decreases_to!(types@ => types@[0]));
                            }
                            match shape_of(types@[0], owner, no_options()) {
                                Err(words) => Err(words),
                                Ok(inner) => Ok(
                                    ShapeView {
                                        kind: KindView::Known("array"@),
                                        rest: seq![PieceView::Text(",\"items\":"@)] + completed(
                                            inner,
                                            item_options_of(options),
                                        ),
                                        source: inner.source,
                                        optional: false,
                                        open: inner.open,
                                    },
                                ),
                            }
                        } else {
                            Err("Spell arrays as `Vec<T>`."@)
                        },
                        _ => Err("Spell arrays as `Vec<T>`."@),
                    }
                } else if name@ == "BTreeMap"@ {
                    match arguments {
                        TypeArguments::Angle { types, .. } => if types@.len() == 2 && last_type(types@[0]) == Some(
                            "String"@,
                        ) {
                            proof {
                                assert(decreases_to!(ty => ty->arguments));
                                assert(decreases_to!(ty->arguments => ty->arguments->types));
                                assert(decreases_to!(types => types@));
                                assert(decreases_to!(types@ => types@[1]));
                            }
                            match shape_of(types@[1], owner, no_options()) {
                                Err(words) => Err(words),
                                Ok(inner) => Ok(
                                    ShapeView {
                                        kind: KindView::Known("object"@),
                                        rest: seq![PieceView::Text(",\"additionalProperties\":"@)] + completed(
                                            inner,
                                            no_options(),
                                        ),
                                        source: inner.source,
                                        optional: false,
                                        open: FlagView::Known(true),
                                    },
                                ),
                            }
                        } else {
                            Err("Object maps must be spelled `BTreeMap<String, T>`."@)
                        },
                        _ => Err("Object maps must be spelled `BTreeMap<String, T>`."@),
                    }
                } else if options.item_format is Some {
                    Err("Declare array item formats directly on `Vec<T>` or `[T; N]`, optionally inside `Option`."@)
                } else {
                    Ok(
                        ShapeView {
                            kind: KindView::Of(tokens@),
                            rest: seq![PieceView::Rest(tokens@)],
                            source: FlagView::Of(tokens@),
                            optional: false,
                            open: FlagView::Of(tokens@),
                        },
                    )
                },
                _ => Err(Seq::empty()),
            },
        },
    }
}

/// Returns the shape of a type in the declaration of `owner`.
pub fn shape(ty: &RustType, owner: &str, options: &SchemaOptions) -> (result: Result<Shape, String>)
    ensures
        match shape_of(*ty, owner@, options@) {
            Ok(expected) => result matches Ok(result) && result@ == expected,
            Err(words) => result matches Err(message) && message@ == words,
        },
    decreases ty,
{
    if let RustType::Array { element, length, .. } = ty {
        let none = SchemaOptions::none();
        let item = match shape(element, owner, &none) {
            Ok(item) => item,
            Err(message) => return Err(message),
        };
        let source = item.source.copy();
        let open = item.open.copy();
        let ghost shown = item@;
        let mut rest: Vec<Piece> = Vec::new();
        assert(piece_views(rest@) =~= Seq::empty());
        put(&mut rest, Piece::Limit(length.clone()));
        put_text(&mut rest, ",\"items\":");
        put_all(&mut rest, complete_schema(item, &item_options(options)));
        put_text(&mut rest, ",\"minItems\":");
        put(&mut rest, Piece::Number(length.clone()));
        put_text(&mut rest, ",\"maxItems\":");
        put(&mut rest, Piece::Number(length.clone()));
        assert(piece_views(rest@) =~= seq![PieceView::Limit(length@), PieceView::Text(",\"items\":"@)] + completed(
            shown,
            item_options_of(options@),
        ) + seq![
            PieceView::Text(",\"minItems\":"@),
            PieceView::Number(length@),
            PieceView::Text(",\"maxItems\":"@),
            PieceView::Number(length@),
        ]);
        return Ok(Shape { kind: Kind::Known("array"), rest, source, optional: false, open });
    }
    match path_arguments(ty, owner) {
        Ok(_) => {},
        Err(message) => return Err(message),
    }
    match ty {
        RustType::Path { name, arguments, tokens } => {
            if same_text(name.as_str(), "Option") {
                if let TypeArguments::Angle { types, .. } = arguments {
                    if types.len() == 1 {
                        assert(decreases_to!(*ty => ty->arguments));
                        assert(decreases_to!(ty->arguments => ty->arguments->types));
                        assert(decreases_to!(*types => types@));
                        assert(decreases_to!(types@ => types@[0]));
                        let mut inner = match shape(&types[0], owner, options) {
                            Ok(inner) => inner,
                            Err(message) => return Err(message),
                        };
                        if inner.optional {
                            return Err("Nested `Option` cannot be represented; use one `Option<T>`.".to_owned());
                        }
                        inner.optional = true;
                        return Ok(inner);
                    }
                }
                return Err("Spell nullable fields as `Option<T>`.".to_owned());
            }
            if same_text(name.as_str(), "Vec") {
                if let TypeArguments::Angle { types, .. } = arguments {
                    if types.len() == 1 {
                        assert(decreases_to!(*ty => ty->arguments));
                        assert(decreases_to!(ty->arguments => ty->arguments->types));
                        assert(decreases_to!(*types => types@));
                        assert(decreases_to!(types@ => types@[0]));
                        let none = SchemaOptions::none();
                        let inner = match shape(&types[0], owner, &none) {
                            Ok(inner) => inner,
                            Err(message) => return Err(message),
                        };
                        let source = inner.source.copy();
                        let open = inner.open.copy();
                        let ghost shown = inner@;
                        let mut rest: Vec<Piece> = Vec::new();
                        assert(piece_views(rest@) =~= Seq::empty());
                        put_text(&mut rest, ",\"items\":");
                        put_all(&mut rest, complete_schema(inner, &item_options(options)));
                        assert(piece_views(rest@) =~= seq![PieceView::Text(",\"items\":"@)] + completed(
                            shown,
                            item_options_of(options@),
                        ));
                        return Ok(Shape { kind: Kind::Known("array"), rest, source, optional: false, open });
                    }
                }
                return Err("Spell arrays as `Vec<T>`.".to_owned());
            }
            if same_text(name.as_str(), "BTreeMap") {
                if let TypeArguments::Angle { types, .. } = arguments {
                    if types.len() == 2 && is_type(&types[0], "String") {
                        assert(decreases_to!(*ty => ty->arguments));
                        assert(decreases_to!(ty->arguments => ty->arguments->types));
                        assert(decreases_to!(*types => types@));
                        assert(decreases_to!(types@ => types@[1]));
                        let none = SchemaOptions::none();
                        let inner = match shape(&types[1], owner, &none) {
                            Ok(inner) => inner,
                            Err(message) => return Err(message),
                        };
                        let source = inner.source.copy();
                        let ghost shown = inner@;
                        let mut rest: Vec<Piece> = Vec::new();
                        assert(piece_views(rest@) =~= Seq::empty());
                        put_text(&mut rest, ",\"additionalProperties\":");
                        put_all(&mut rest, complete_schema(inner, &none));
                        assert(piece_views(rest@) =~= seq![PieceView::Text(",\"additionalProperties\":"@)] + completed(
                            shown,
                            no_options(),
                        ));
                        return Ok(
                            Shape {
                                kind: Kind::Known("object"),
                                rest,
                                source,
                                optional: false,
                                open: Flag::Known(true),
                            },
                        );
                    }
                }
                return Err("Object maps must be spelled `BTreeMap<String, T>`.".to_owned());
            }
            if options.item_format.is_some() {
                return Err(
                    "Declare array item formats directly on `Vec<T>` or `[T; N]`, optionally inside `Option`.".to_owned(),
                );
            }
            let mut rest: Vec<Piece> = Vec::new();
            assert(piece_views(rest@) =~= Seq::empty());
            put(&mut rest, Piece::Rest(tokens.clone()));
            assert(piece_views(rest@) =~= seq![PieceView::Rest(tokens@)]);
            Ok(
                Shape {
                    kind: Kind::Of(tokens.clone()),
                    rest,
                    source: Flag::Of(tokens.clone()),
                    optional: false,
                    open: Flag::Of(tokens.clone()),
                },
            )
        },
        _ => vstd::pervasive::unreached(),
    }
}

/// A property may be null exactly where its type is spelled `Option`.
pub proof fn law_only_options_may_be_null(ty: RustType, owner: Seq<char>, options: OptionsView)
    ensures
        shape_of(ty, owner, options) matches Ok(shape) ==> (shape.optional <==> last_type(ty) == Some("Option"@)),
{
    lemma_containers();
}

proof fn lemma_containers()
    ensures
        "Option"@ != "Vec"@,
        "Option"@ != "BTreeMap"@,
        "Vec"@ != "BTreeMap"@,
{
    reveal_strlit("Option");
    reveal_strlit("Vec");
    reveal_strlit("BTreeMap");
    assert("Option"@.len() == 6 && "Vec"@.len() == 3 && "BTreeMap"@.len() == 8);
}

/// An option has the schema of what it holds, but that it may be null.
pub proof fn law_option_keeps_the_schema(ty: RustType, inner: RustType, owner: Seq<char>, options: OptionsView)
    requires
        ty matches RustType::Path { name, arguments: TypeArguments::Angle { types, .. }, .. } && name@ == "Option"@ && types@
            == seq![inner],
    ensures
        shape_of(ty, owner, options) matches Ok(shape) ==> {
            &&& shape_of(inner, owner, options) matches Ok(held)
            &&& !held.optional
            &&& shape == (ShapeView { optional: true, ..held })
        },
        owner != "Option"@ && shape_of(inner, owner, options) is Ok && last_type(inner) != Some("Option"@) ==> shape_of(
            ty,
            owner,
            options,
        ) is Ok,
{
    lemma_containers();
    law_only_options_may_be_null(inner, owner, options);
    lemma_supported();
}

proof fn lemma_supported()
    ensures
        !is_unsupported("Option"@) && "Option"@ != "Self"@,
        !is_unsupported("Vec"@) && "Vec"@ != "Self"@,
        !is_unsupported("BTreeMap"@) && "BTreeMap"@ != "Self"@,
        !is_unsupported("String"@) && "String"@ != "Self"@,
        !is_unsupported("bool"@) && "bool"@ != "Self"@,
        !is_unsupported("f64"@) && "f64"@ != "Self"@,
        !is_unsupported("i32"@) && "i32"@ != "Self"@,
        !is_unsupported("u32"@) && "u32"@ != "Self"@,
{
    reveal_strlit("Option");
    reveal_strlit("Vec");
    reveal_strlit("BTreeMap");
    reveal_strlit("String");
    reveal_strlit("bool");
    reveal_strlit("f64");
    reveal_strlit("i32");
    reveal_strlit("u32");
    reveal_strlit("Self");
    reveal_strlit("u64");
    reveal_strlit("i64");
    reveal_strlit("u128");
    reveal_strlit("i128");
    reveal_strlit("usize");
    reveal_strlit("isize");
    reveal_strlit("u8");
    reveal_strlit("i8");
    reveal_strlit("u16");
    reveal_strlit("i16");
    reveal_strlit("f32");
    reveal_strlit("PathBuf");
    reveal_strlit("Path");
    reveal_strlit("Box");
    reveal_strlit("Rc");
    reveal_strlit("Arc");
    reveal_strlit("HashMap");
    reveal_strlit("HashSet");
    reveal_strlit("Value");
    reveal_strlit("Fields");
    assert("Vec"@[0] == 'V' && "Box"@[0] == 'B' && "Arc"@[0] == 'A' && "u64"@[0] == 'u' && "i64"@[0] == 'i' && "u16"@[0]
        == 'u' && "i16"@[0] == 'i' && "f32"@[0] == 'f');
    assert("f64"@[1] == '6' && "f32"@[1] == '3');
    assert("i32"@[0] == 'i' && "i32"@[1] == '3' && "i64"@[1] == '6' && "i16"@[1] == '1');
    assert("u32"@[0] == 'u' && "u32"@[1] == '3' && "u64"@[1] == '6' && "u16"@[1] == '1');
    assert("bool"@[0] == 'b' && "Self"@[0] == 'S' && "Path"@[0] == 'P' && "u128"@[0] == 'u' && "i128"@[0] == 'i');
    assert("Fields"@[0] == 'F' && "Option"@[0] == 'O' && "String"@[0] == 'S');
    assert("BTreeMap"@.len() == 8 && "String"@.len() == 6 && "Option"@.len() == 6 && "Self"@.len() == 4);
    assert("Value"@.len() == 5 && "usize"@.len() == 5 && "isize"@.len() == 5);
}

/// A type of another name than the three containers, its own declaration's or one without a
/// schema has the schema that it declares itself; in particular the scalars have one.
pub proof fn law_named_types_have_their_own_schema(ty: RustType, owner: Seq<char>, options: OptionsView)
    requires
        ty matches RustType::Path { name, arguments, .. } && name@ != owner && !(arguments is Parenthesized) && (name@
            == "String"@ || name@ == "bool"@ || name@ == "f64"@ || name@ == "i32"@ || name@ == "u32"@ || (name@ != "Self"@
            && !is_unsupported(name@) && name@ != "Option"@ && name@ != "Vec"@ && name@ != "BTreeMap"@)),
        options.item_format is None,
    ensures
        shape_of(ty, owner, options) matches Ok(shape) && shape.kind == KindView::Of(tokens_of(ty)) && shape.rest == seq![
            PieceView::Rest(tokens_of(ty)),
        ] && !shape.optional,
{
    lemma_supported();
    reveal_strlit("Option");
    reveal_strlit("Vec");
    reveal_strlit("BTreeMap");
    reveal_strlit("String");
    reveal_strlit("bool");
    reveal_strlit("f64");
    reveal_strlit("i32");
    reveal_strlit("u32");
    assert("String"@[0] == 'S' && "Option"@[0] == 'O' && "Vec"@[0] == 'V' && "f64"@[0] == 'f' && "i32"@[0] == 'i'
        && "u32"@[0] == 'u' && "bool"@.len() == 4 && "BTreeMap"@.len() == 8);
}

/// Integers that JSON does not carry exactly, short ones, paths, pointers, hashed collections
/// and loose values have no schema, and neither have recursive types.
pub proof fn law_unsupported_types_are_refused(ty: RustType, owner: Seq<char>, options: OptionsView)
    requires
        ty matches RustType::Path { name, .. } && (name@ == owner || name@ == "Self"@ || name@ == "u64"@ || name@ == "i64"@
            || name@ == "u128"@ || name@ == "i128"@ || name@ == "usize"@ || name@ == "isize"@ || name@ == "u8"@ || name@
            == "i8"@ || name@ == "u16"@ || name@ == "i16"@ || name@ == "f32"@ || name@ == "PathBuf"@ || name@ == "Path"@
            || name@ == "Box"@ || name@ == "Rc"@ || name@ == "Arc"@ || name@ == "HashMap"@ || name@ == "HashSet"@ || name@
            == "Value"@ || name@ == "Fields"@),
    ensures
        shape_of(ty, owner, options) is Err,
{
}

/// An array's schema holds the schema of its items behind `items`, under the format that the
/// array demands of them; one of a fixed length is bounded by it.
pub proof fn law_arrays_hold_the_schema_of_their_items(
    ty: RustType,
    item: RustType,
    owner: Seq<char>,
    options: OptionsView,
    shape: ShapeView,
)
    requires
        shape_of(ty, owner, options) == Ok::<ShapeView, Seq<char>>(shape),
        (ty matches RustType::Path { name, arguments: TypeArguments::Angle { types, .. }, .. } && name@ == "Vec"@
            && types@ == seq![item]) || (ty matches RustType::Array { element, .. } && *element == item),
    ensures
        shape.kind == KindView::Known("array"@),
        !shape.optional,
        shape_of(item, owner, no_options()) matches Ok(held) && {
            let schema = completed(held, item_options_of(options));
            &&& shape.source == held.source
            &&& shape.open == held.open
            &&& exists|at: int|
                1 <= at && at + schema.len() <= shape.rest.len() && #[trigger] shape.rest.subrange(at, at + schema.len())
                    == schema && shape.rest[at - 1] == PieceView::Text(",\"items\":"@)
            &&& ty matches RustType::Array { length, .. } ==> shape.rest.contains(PieceView::Limit(length@))
                && shape.rest.contains(PieceView::Text(",\"minItems\":"@)) && shape.rest.contains(
                PieceView::Text(",\"maxItems\":"@),
            ) && shape.rest.contains(PieceView::Number(length@))
        },
{
    lemma_containers();
    let held = shape_of(item, owner, no_options())->Ok_0;
    let schema = completed(held, item_options_of(options));
    match ty {
        RustType::Array { length, .. } => {
            assert(shape.rest.subrange(2, 2 + schema.len() as int) =~= schema);
            assert(shape.rest[0] == PieceView::Limit(length@));
            let n = 2 + schema.len() as int;
            assert(shape.rest[n] == PieceView::Text(",\"minItems\":"@));
            assert(shape.rest[n + 1] == PieceView::Number(length@));
            assert(shape.rest[n + 2] == PieceView::Text(",\"maxItems\":"@));
            assert(shape.rest[2 - 1] == PieceView::Text(",\"items\":"@));
        },
        _ => {
            assert(shape.rest.subrange(1, 1 + schema.len() as int) =~= schema);
            assert(shape.rest[1 - 1] == PieceView::Text(",\"items\":"@));
        },
    }
}

/// A map's schema takes any member, and holds the schema of its values.
pub proof fn law_maps_hold_the_schema_of_their_values(
    ty: RustType,
    key: RustType,
    value: RustType,
    owner: Seq<char>,
    options: OptionsView,
)
    requires
        ty matches RustType::Path { name, arguments: TypeArguments::Angle { types, .. }, .. } && name@ == "BTreeMap"@
            && types@ == seq![key, value],
    ensures
        shape_of(ty, owner, options) matches Ok(shape) ==> {
            &&& last_type(key) == Some("String"@)
            &&& shape.kind == KindView::Known("object"@)
            &&& shape.open == FlagView::Known(true)
            &&& shape_of(value, owner, no_options()) matches Ok(held) && shape.rest[0] == PieceView::Text(
                ",\"additionalProperties\":"@,
            ) && shape.rest.skip(1) == completed(held, no_options())
        },
{
    lemma_containers();
    if let Ok(shape) = shape_of(ty, owner, options) {
        let held = shape_of(value, owner, no_options())->Ok_0;
        assert(shape.rest.skip(1) =~= completed(held, no_options()));
    }
}

/// A schema says its JSON type, and `null` beside it exactly where it may be null; it holds
/// all that its shape holds, and is checked for every keyword that its options set.
pub proof fn law_schema_says_its_type(shape: ShapeView, options: OptionsView)
    ensures
        completed(shape, options).contains(PieceView::Kind(shape.kind)),
        completed(shape, options).contains(PieceView::End(extras_of(options))),
        shape.optional ==> completed(shape, options).contains(PieceView::Text(",\"null\"]"@)),
        exists|at: int|
            0 <= at && at + shape.rest.len() <= completed(shape, options).len() && #[trigger] completed(
                shape,
                options,
            ).subrange(at, at + shape.rest.len()) == shape.rest,
        forall|i: int|
            0 <= i < all_rules(options).len() ==> completed(shape, options).contains(
                PieceView::Check(#[trigger] all_rules(options)[i], shape.kind, shape.source),
            ),
{
    let pieces = completed(shape, options);
    let rules = all_rules(options).len() as int;
    let typed: int = if shape.optional {
        3
    } else {
        2
    };
    assert(pieces[rules + 1] == PieceView::Kind(shape.kind));
    if shape.optional {
        assert(pieces[rules + 2] == PieceView::Text(",\"null\"]"@));
    }
    let at = rules + typed + 1;
    assert(pieces.subrange(at, at + shape.rest.len()) =~= shape.rest);
    assert(pieces[at + shape.rest.len()] == PieceView::End(extras_of(options)));
    assert forall|i: int| 0 <= i < all_rules(options).len() implies pieces.contains(
        PieceView::Check(#[trigger] all_rules(options)[i], shape.kind, shape.source),
    ) by {
        assert(pieces[i] == PieceView::Check(all_rules(options)[i], shape.kind, shape.source));
    }
}

/// Every keyword of options stands in the text of a schema, behind those before it: a comma,
/// its name, a colon, and its value.
pub proof fn law_every_keyword_is_written(members: Seq<MemberView>, member: MemberView)
    ensures
        extra_text(Seq::empty(), 0).len() == 0,
        extra_text(members.push(member), members.len() as int + 1) == extra_text(members, members.len() as int) + (","@
            + json_text(JsonValue::Text(member.key)) + ":"@ + json_text(member.value)),
{
    lemma_extra_kept(members, member, members.len() as int);
    let all = members.push(member);
    assert(extra_text(all, members.len() as int + 1) =~= extra_text(members, members.len() as int) + (","@ + json_text(
        JsonValue::Text(member.key),
    ) + ":"@ + json_text(member.value)));
}

proof fn lemma_extra_kept(members: Seq<MemberView>, member: MemberView, end: int)
    requires
        end <= members.len(),
    ensures
        extra_text(members.push(member), end) == extra_text(members, end),
        rules_of(members.push(member), end) == rules_of(members, end),
    decreases end,
{
    if end > 0 {
        lemma_extra_kept(members, member, end - 1);
        assert(members.push(member)[end - 1] == members[end - 1]);
    }
}

/// A keyword that only some types can have is checked against the type it is set for.
pub proof fn law_keywords_are_checked(options: OptionsView, index: int)
    requires
        0 <= index < options.members.len(),
    ensures
        ({
            let key = options.members[index].key;
            &&& key == "format"@ ==> all_rules(options).contains(Rule::Format)
            &&& key == "minLength"@ || key == "maxLength"@ ==> all_rules(options).contains(Rule::Length)
            &&& key == "mediaTypes"@ || key == "maxBytes"@ ==> all_rules(options).contains(Rule::Source)
            &&& key == "minimum"@ || key == "maximum"@ ==> all_rules(options).contains(Rule::Bound)
            &&& key == "minItems"@ || key == "maxItems"@ || key == "uniqueItems"@ ==> all_rules(options).contains(
                Rule::Items,
            )
        }),
        options.item_format is Some ==> all_rules(options).contains(Rule::ItemFormat),
{
    reveal_strlit("format");
    reveal_strlit("minLength");
    reveal_strlit("maxLength");
    reveal_strlit("mediaTypes");
    reveal_strlit("maxBytes");
    reveal_strlit("minimum");
    reveal_strlit("maximum");
    reveal_strlit("minItems");
    reveal_strlit("maxItems");
    reveal_strlit("uniqueItems");
    assert("format"@.len() == 6 && "minLength"@.len() == 9 && "maxLength"@.len() == 9 && "mediaTypes"@.len() == 10
        && "maxBytes"@.len() == 8 && "minimum"@.len() == 7 && "maximum"@.len() == 7 && "minItems"@.len() == 8
        && "maxItems"@.len() == 8 && "uniqueItems"@.len() == 11);
    assert("maxBytes"@[3] == 'B' && "maxItems"@[3] == 'I' && "minItems"@[3] == 'I');
    let rules = rules_of(options.members, options.members.len() as int);
    if rule_of(options.members[index].key) is Some {
        lemma_rule_kept(options.members, index, options.members.len() as int);
        let rule = rule_of(options.members[index].key)->0;
        let at = choose|at: int| 0 <= at < rules.len() && rules[at] == rule;
        assert(all_rules(options)[at] == rule);
    }
    if options.item_format is Some {
        assert(all_rules(options)[rules.len() as int] == Rule::ItemFormat);
    }
}

proof fn lemma_rule_kept(members: Seq<MemberView>, index: int, end: int)
    requires
        0 <= index < end <= members.len(),
        rule_of(members[index].key) is Some,
    ensures
        rules_of(members, end).contains(rule_of(members[index].key)->0),
    decreases end,
{
    let rule = rule_of(members[index].key)->0;
    let before = rules_of(members, end - 1);
    if index == end - 1 {
        assert(rules_of(members, end)[before.len() as int] == rule);
    } else {
        lemma_rule_kept(members, index, end - 1);
        let at = choose|at: int| 0 <= at < before.len() && before[at] == rule;
        assert(rules_of(members, end)[at] == rule);
    }
}

} // verus!
