//! The WebAssembly binary envelope: LEB128 lengths and top-level sections.

use vstd::prelude::*;
use vstd::utf8::*;

use crate::text::utf8_text;

verus! {

/// Why an envelope or a build declaration was rejected.
#[derive(Clone, Copy, Debug, PartialEq, Eq, Structural)]
pub enum Rejection {
    /// The bytes do not start with a component header.
    HeaderExpected,
    /// The component is longer than the component limit.
    ComponentTooLarge,
    /// A length runs past the end of the bytes.
    LengthTruncated,
    /// A length does not fit an unsigned 32-bit LEB128.
    LengthOverflow,
    /// A section runs past the end of its module or component.
    SectionOverrun,
    /// A custom section's name runs past the end of the section.
    NameOverrun,
    /// A custom section's name is not UTF-8.
    NameNotText,
    /// There is more than one top-level manifest.
    ManifestDuplicated,
    /// The manifest is longer than the manifest limit.
    ManifestTooLarge,
    /// There is no top-level manifest.
    ManifestAbsent,
    /// A nested module is malformed or nested too deeply.
    NestingInvalid,
    /// A nested header is neither a module's nor a component's.
    NestedHeaderInvalid,
    /// A declaration section is too long, or there are too many.
    PartsOutOfBounds,
    /// A nested section holds the wrong kind of binary.
    NestedLayerInvalid,
    /// A component to stamp has a manifest already.
    AlreadyStamped,
    /// The stamped component would exceed the component limit.
    StampTooLarge,
    /// The embedded manifest is not what the declarations assemble to.
    ManifestMismatch,
    /// There are more declaration sections than parts allowed.
    TooManySections,
    /// The declaration bytes exceed the component limit together.
    DeclarationsTooLarge,
    /// There are more declarations than parts allowed.
    TooManyDeclarations,
    /// A declaration is no object.
    DeclarationNotObject,
    /// A declaration has no textual kind.
    KindRequired,
    /// A named declaration has no textual name.
    NameRequired,
    /// A declaration has an unknown kind.
    KindUnknown,
    /// There is more than one extension declaration.
    ExtensionDuplicated,
    /// Two declarations of one kind share a name.
    NameDuplicated,
    /// There is no extension declaration.
    ExtensionAbsent,
    /// The extension declaration lists resources or connections itself.
    NamedRequired,
    /// The extension declaration has no action list.
    ActionListAbsent,
    /// The action list and the action declarations differ.
    ActionListMismatch,
    /// The assembled declarations could not be encoded.
    EncodingFailed,
    /// The bytes are an encoded WIT package.
    WitPackage,
    /// The component exports something else than the action interface.
    ExportsDiffer,
    /// The action export is no interface.
    ExportNotInterface,
    /// The action interface exports other functions than its one.
    ExportFunctions,
    /// An import is private or has no version.
    ImportUnversioned,
    /// An import is of another package or version.
    ImportUnsupported,
    /// An import is of an interface that the host does not offer.
    ImportInterface,
}

impl Rejection {
    /// The stable code of this rejection.
    pub open spec fn code_spec(self) -> Seq<char> {
        match self {
            Rejection::HeaderExpected => "MANIFEST_MALFORMED"@,
            Rejection::ComponentTooLarge => "MANIFEST_TOO_LARGE"@,
            Rejection::LengthTruncated => "MANIFEST_MALFORMED"@,
            Rejection::LengthOverflow => "MANIFEST_MALFORMED"@,
            Rejection::SectionOverrun => "MANIFEST_MALFORMED"@,
            Rejection::NameOverrun => "MANIFEST_MALFORMED"@,
            Rejection::NameNotText => "MANIFEST_MALFORMED"@,
            Rejection::ManifestDuplicated => "MANIFEST_DUPLICATED"@,
            Rejection::ManifestTooLarge => "MANIFEST_TOO_LARGE"@,
            Rejection::ManifestAbsent => "MANIFEST_ABSENT"@,
            Rejection::NestingInvalid => "EXTENSION_PARTS_INVALID"@,
            Rejection::NestedHeaderInvalid => "EXTENSION_PARTS_INVALID"@,
            Rejection::PartsOutOfBounds => "EXTENSION_PARTS_INVALID"@,
            Rejection::NestedLayerInvalid => "EXTENSION_PARTS_INVALID"@,
            Rejection::AlreadyStamped => "EXTENSION_ALREADY_STAMPED"@,
            Rejection::StampTooLarge => "EXTENSION_PARTS_INVALID"@,
            Rejection::ManifestMismatch => "EXTENSION_MANIFEST_MISMATCH"@,
            Rejection::TooManySections => "EXTENSION_PARTS_INVALID"@,
            Rejection::DeclarationsTooLarge => "EXTENSION_PARTS_INVALID"@,
            Rejection::TooManyDeclarations => "EXTENSION_PARTS_INVALID"@,
            Rejection::DeclarationNotObject => "EXTENSION_PARTS_INVALID"@,
            Rejection::KindRequired => "EXTENSION_PARTS_INVALID"@,
            Rejection::NameRequired => "EXTENSION_PARTS_INVALID"@,
            Rejection::KindUnknown => "EXTENSION_PARTS_INVALID"@,
            Rejection::ExtensionDuplicated => "EXTENSION_PARTS_DUPLICATED"@,
            Rejection::NameDuplicated => "EXTENSION_PARTS_DUPLICATED"@,
            Rejection::ExtensionAbsent => "EXTENSION_PARTS_ABSENT"@,
            Rejection::NamedRequired => "EXTENSION_PARTS_INVALID"@,
            Rejection::ActionListAbsent => "EXTENSION_ACTION_LIST_INVALID"@,
            Rejection::ActionListMismatch => "EXTENSION_ACTION_LIST_INVALID"@,
            Rejection::EncodingFailed => "EXTENSION_PARTS_INVALID"@,
            Rejection::WitPackage => "MANIFEST_WORLD_INVALID"@,
            Rejection::ExportsDiffer => "MANIFEST_WORLD_INVALID"@,
            Rejection::ExportNotInterface => "MANIFEST_WORLD_INVALID"@,
            Rejection::ExportFunctions => "MANIFEST_WORLD_INVALID"@,
            Rejection::ImportUnversioned => "MANIFEST_WORLD_INVALID"@,
            Rejection::ImportUnsupported => "MANIFEST_WORLD_INVALID"@,
            Rejection::ImportInterface => "MANIFEST_WORLD_INVALID"@,
        }
    }

    /// The message shown with this rejection.
    pub open spec fn message_spec(self) -> Seq<char> {
        match self {
            Rejection::HeaderExpected => "Expected a WebAssembly component header."@,
            Rejection::ComponentTooLarge => "Component exceeds 64 MiB."@,
            Rejection::LengthTruncated => "Truncated section length."@,
            Rejection::LengthOverflow => "Section length exceeds unsigned 32-bit LEB128."@,
            Rejection::SectionOverrun => "Section exceeds its enclosing component or module."@,
            Rejection::NameOverrun => "Custom section name exceeds its enclosing section."@,
            Rejection::NameNotText => "Custom section names must be valid UTF-8."@,
            Rejection::ManifestDuplicated => "Component has more than one top-level manifest."@,
            Rejection::ManifestTooLarge => "Manifest exceeds 256 KiB."@,
            Rejection::ManifestAbsent => "Top-level manifest section is absent."@,
            Rejection::NestingInvalid => "Malformed module or excessive nesting."@,
            Rejection::NestedHeaderInvalid => "Invalid module or component header."@,
            Rejection::PartsOutOfBounds => "Build declarations exceed their bounds."@,
            Rejection::NestedLayerInvalid => "Nested section has the wrong encoding layer."@,
            Rejection::AlreadyStamped => "Component already has a top-level manifest."@,
            Rejection::StampTooLarge => "Stamped component exceeds 64 MiB."@,
            Rejection::ManifestMismatch => "Embedded manifest differs from its assembled declarations."@,
            Rejection::TooManySections => "Too many build declaration sections."@,
            Rejection::DeclarationsTooLarge => "Build declaration bytes exceed their bounds."@,
            Rejection::TooManyDeclarations => "Too many build declarations."@,
            Rejection::DeclarationNotObject => "Build declaration must be an object."@,
            Rejection::KindRequired => "Build declaration kind is required."@,
            Rejection::NameRequired => "Named build declaration requires a name."@,
            Rejection::KindUnknown => "Unknown build declaration kind."@,
            Rejection::ExtensionDuplicated => "Exactly one extension part is required."@,
            Rejection::NameDuplicated => "Named build declarations must be unique."@,
            Rejection::ExtensionAbsent => "Extension part is missing."@,
            Rejection::NamedRequired => "Resources and connections must use named build declarations."@,
            Rejection::ActionListAbsent => "Extension part requires an explicit action list."@,
            Rejection::ActionListMismatch => "Explicit action list must match action parts in both directions."@,
            Rejection::EncodingFailed => "Build declarations could not be encoded."@,
            Rejection::WitPackage => "Expected an executable component, not a WIT package."@,
            Rejection::ExportsDiffer => "Component must export exactly the Sloper action interface."@,
            Rejection::ExportNotInterface => "The action export must be an interface."@,
            Rejection::ExportFunctions => "The action interface must export only run."@,
            Rejection::ImportUnversioned => "Private or unversioned component imports are not supported."@,
            Rejection::ImportUnsupported => "Component imports an unsupported package or version."@,
            Rejection::ImportInterface => "Component imports an unsupported WASI interface."@,
        }
    }

    /// Returns the stable code of this rejection.
    pub fn code(&self) -> (code: &'static str)
        ensures
            code@ == self.code_spec(),
    {
        match self {
            Rejection::HeaderExpected => "MANIFEST_MALFORMED",
            Rejection::ComponentTooLarge => "MANIFEST_TOO_LARGE",
            Rejection::LengthTruncated => "MANIFEST_MALFORMED",
            Rejection::LengthOverflow => "MANIFEST_MALFORMED",
            Rejection::SectionOverrun => "MANIFEST_MALFORMED",
            Rejection::NameOverrun => "MANIFEST_MALFORMED",
            Rejection::NameNotText => "MANIFEST_MALFORMED",
            Rejection::ManifestDuplicated => "MANIFEST_DUPLICATED",
            Rejection::ManifestTooLarge => "MANIFEST_TOO_LARGE",
            Rejection::ManifestAbsent => "MANIFEST_ABSENT",
            Rejection::NestingInvalid => "EXTENSION_PARTS_INVALID",
            Rejection::NestedHeaderInvalid => "EXTENSION_PARTS_INVALID",
            Rejection::PartsOutOfBounds => "EXTENSION_PARTS_INVALID",
            Rejection::NestedLayerInvalid => "EXTENSION_PARTS_INVALID",
            Rejection::AlreadyStamped => "EXTENSION_ALREADY_STAMPED",
            Rejection::StampTooLarge => "EXTENSION_PARTS_INVALID",
            Rejection::ManifestMismatch => "EXTENSION_MANIFEST_MISMATCH",
            Rejection::TooManySections => "EXTENSION_PARTS_INVALID",
            Rejection::DeclarationsTooLarge => "EXTENSION_PARTS_INVALID",
            Rejection::TooManyDeclarations => "EXTENSION_PARTS_INVALID",
            Rejection::DeclarationNotObject => "EXTENSION_PARTS_INVALID",
            Rejection::KindRequired => "EXTENSION_PARTS_INVALID",
            Rejection::NameRequired => "EXTENSION_PARTS_INVALID",
            Rejection::KindUnknown => "EXTENSION_PARTS_INVALID",
            Rejection::ExtensionDuplicated => "EXTENSION_PARTS_DUPLICATED",
            Rejection::NameDuplicated => "EXTENSION_PARTS_DUPLICATED",
            Rejection::ExtensionAbsent => "EXTENSION_PARTS_ABSENT",
            Rejection::NamedRequired => "EXTENSION_PARTS_INVALID",
            Rejection::ActionListAbsent => "EXTENSION_ACTION_LIST_INVALID",
            Rejection::ActionListMismatch => "EXTENSION_ACTION_LIST_INVALID",
            Rejection::EncodingFailed => "EXTENSION_PARTS_INVALID",
            Rejection::WitPackage => "MANIFEST_WORLD_INVALID",
            Rejection::ExportsDiffer => "MANIFEST_WORLD_INVALID",
            Rejection::ExportNotInterface => "MANIFEST_WORLD_INVALID",
            Rejection::ExportFunctions => "MANIFEST_WORLD_INVALID",
            Rejection::ImportUnversioned => "MANIFEST_WORLD_INVALID",
            Rejection::ImportUnsupported => "MANIFEST_WORLD_INVALID",
            Rejection::ImportInterface => "MANIFEST_WORLD_INVALID",
        }
    }

    /// Returns the message shown with this rejection.
    pub fn message(&self) -> (message: &'static str)
        ensures
            message@ == self.message_spec(),
    {
        match self {
            Rejection::HeaderExpected => "Expected a WebAssembly component header.",
            Rejection::ComponentTooLarge => "Component exceeds 64 MiB.",
            Rejection::LengthTruncated => "Truncated section length.",
            Rejection::LengthOverflow => "Section length exceeds unsigned 32-bit LEB128.",
            Rejection::SectionOverrun => "Section exceeds its enclosing component or module.",
            Rejection::NameOverrun => "Custom section name exceeds its enclosing section.",
            Rejection::NameNotText => "Custom section names must be valid UTF-8.",
            Rejection::ManifestDuplicated => "Component has more than one top-level manifest.",
            Rejection::ManifestTooLarge => "Manifest exceeds 256 KiB.",
            Rejection::ManifestAbsent => "Top-level manifest section is absent.",
            Rejection::NestingInvalid => "Malformed module or excessive nesting.",
            Rejection::NestedHeaderInvalid => "Invalid module or component header.",
            Rejection::PartsOutOfBounds => "Build declarations exceed their bounds.",
            Rejection::NestedLayerInvalid => "Nested section has the wrong encoding layer.",
            Rejection::AlreadyStamped => "Component already has a top-level manifest.",
            Rejection::StampTooLarge => "Stamped component exceeds 64 MiB.",
            Rejection::ManifestMismatch => "Embedded manifest differs from its assembled declarations.",
            Rejection::TooManySections => "Too many build declaration sections.",
            Rejection::DeclarationsTooLarge => "Build declaration bytes exceed their bounds.",
            Rejection::TooManyDeclarations => "Too many build declarations.",
            Rejection::DeclarationNotObject => "Build declaration must be an object.",
            Rejection::KindRequired => "Build declaration kind is required.",
            Rejection::NameRequired => "Named build declaration requires a name.",
            Rejection::KindUnknown => "Unknown build declaration kind.",
            Rejection::ExtensionDuplicated => "Exactly one extension part is required.",
            Rejection::NameDuplicated => "Named build declarations must be unique.",
            Rejection::ExtensionAbsent => "Extension part is missing.",
            Rejection::NamedRequired => "Resources and connections must use named build declarations.",
            Rejection::ActionListAbsent => "Extension part requires an explicit action list.",
            Rejection::ActionListMismatch => "Explicit action list must match action parts in both directions.",
            Rejection::EncodingFailed => "Build declarations could not be encoded.",
            Rejection::WitPackage => "Expected an executable component, not a WIT package.",
            Rejection::ExportsDiffer => "Component must export exactly the Sloper action interface.",
            Rejection::ExportNotInterface => "The action export must be an interface.",
            Rejection::ExportFunctions => "The action interface must export only run.",
            Rejection::ImportUnversioned => "Private or unversioned component imports are not supported.",
            Rejection::ImportUnsupported => "Component imports an unsupported package or version.",
            Rejection::ImportInterface => "Component imports an unsupported WASI interface.",
        }
    }
}

/// The number that the LEB128 bytes from `position` encode, of which `index`
/// bytes were read before, and the position behind them.
pub open spec fn leb_from(bytes: Seq<u8>, position: int, index: int) -> Result<(int, int), Rejection>
    decreases 5 - index,
{
    if !(0 <= position < bytes.len()) {
        Err(Rejection::LengthTruncated)
    } else if index >= 5 || (index == 4 && bytes[position] > 0x0f) {
        Err(Rejection::LengthOverflow)
    } else if bytes[position] < 0x80 {
        Ok((bytes[position] as int, position + 1))
    } else {
        match leb_from(bytes, position + 1, index + 1) {
            Ok((rest, next)) => Ok((bytes[position] - 0x80 + 0x80 * rest, next)),
            Err(rejection) => Err(rejection),
        }
    }
}

/// The LEB128 bytes of `value`.
pub open spec fn leb_bytes(value: nat) -> Seq<u8>
    decreases value,
{
    if value < 0x80 {
        seq![value as u8]
    } else {
        seq![(value % 0x80 + 0x80) as u8] + leb_bytes(value / 0x80)
    }
}

/// How far a number that takes `index` further LEB128 bytes is shifted.
pub open spec fn leb_scale(index: int) -> int
    decreases index,
{
    if index <= 0 {
        1
    } else {
        0x80 * leb_scale(index - 1)
    }
}

/// Reads an unsigned 32-bit LEB128 number at `position`.
pub fn unsigned_leb(bytes: &[u8], position: usize) -> (number: Result<(usize, usize), Rejection>)
    ensures
        match number {
            Ok((value, next)) => leb_from(bytes@, position as int, 0) == Ok::<(int, int), Rejection>(
                (value as int, next as int),
            ) && position < next <= bytes@.len() && value <= u32::MAX,
            Err(rejection) => leb_from(bytes@, position as int, 0) == Err::<(int, int), Rejection>(rejection),
        },
{
    let mut value: usize = 0;
    let mut scale: usize = 1;
    let mut index: usize = 0;
    let mut at: usize = position;
    proof {
        reveal_with_fuel(leb_scale, 6);
    }
    while index < 5
        invariant
            index <= 5,
            at == position + index,
            index > 0 ==> at <= bytes@.len(),
            scale == leb_scale(index as int) || index == 5,
            index <= 4 ==> value < leb_scale(index as int),
            index == 5 ==> false,
            match leb_from(bytes@, at as int, index as int) {
                Ok((rest, next)) => leb_from(bytes@, position as int, 0) == Ok::<(int, int), Rejection>(
                    (value + leb_scale(index as int) * rest, next),
                ),
                Err(rejection) => leb_from(bytes@, position as int, 0) == Err::<(int, int), Rejection>(rejection),
            },
        decreases 5 - index,
    {
        proof {
            reveal_with_fuel(leb_scale, 6);
        }
        if at >= bytes.len() {
            return Err(Rejection::LengthTruncated);
        }
        let byte: u8 = bytes[at];
        if index == 4 && byte > 0x0f {
            return Err(Rejection::LengthOverflow);
        }
        let low: usize = (byte % 0x80) as usize;
        assert(low * scale <= 0x7f * scale && (index == 4 ==> low * scale <= 0x0f * scale)) by (nonlinear_arith)
            requires
                low < 0x80,
                scale > 0,
                index == 4 ==> low <= 0x0f,
        ;
        let ghost before = value;
        let ghost step = scale as int;
        value = value + low * scale;
        at += 1;
        if byte < 0x80 {
            assert(before + step * low == value) by (nonlinear_arith)
                requires
                    value == before + low * step,
            ;
            return Ok((value, at));
        }
        proof {
            assert(byte as int - 0x80 == low);
            match leb_from(bytes@, at as int, index + 1) {
                Ok((rest, next)) => {
                    assert(before + step * (low + 0x80 * rest) == value + (0x80 * step) * rest) by (nonlinear_arith)
                        requires
                            value == before + low * step,
                    ;
                },
                Err(rejection) => {},
            }
        }
        scale = scale * 0x80;
        index += 1;
    }
    Err(Rejection::LengthOverflow)
}

/// The section at `position`: its id, the bounds of its contents.
pub open spec fn section_at(bytes: Seq<u8>, position: int) -> Result<(u8, int, int), Rejection> {
    match leb_from(bytes, position + 1, 0) {
        Ok((length, start)) => if start + length <= bytes.len() {
            Ok((bytes[position], start, start + length))
        } else {
            Err(Rejection::SectionOverrun)
        },
        Err(rejection) => Err(rejection),
    }
}

/// The name and contents of a section that is custom; `None` for another.
pub open spec fn custom_of(id: u8, contents: Seq<u8>) -> Result<Option<(Seq<u8>, Seq<u8>)>, Rejection> {
    if id != 0 {
        Ok(None)
    } else {
        match leb_from(contents, 0, 0) {
            Ok((length, start)) => if start + length > contents.len() {
                Err(Rejection::NameOverrun)
            } else if !valid_utf8(contents.subrange(start, start + length)) {
                Err(Rejection::NameNotText)
            } else {
                Ok(
                    Some(
                        (
                            contents.subrange(start, start + length),
                            contents.subrange(start + length, contents.len() as int),
                        ),
                    ),
                )
            },
            Err(rejection) => Err(rejection),
        }
    }
}

/// A number read from LEB128 bytes is non-negative and its end lies inside.
pub proof fn lemma_leb_bounds(bytes: Seq<u8>, position: int, index: int)
    ensures
        leb_from(bytes, position, index) matches Ok((value, next)) ==> value >= 0 && position < next <= bytes.len()
            && next <= position + 5 - index,
    decreases 5 - index,
{
    if 0 <= position < bytes.len() && index < 5 {
        lemma_leb_bounds(bytes, position + 1, index + 1);
    }
}

/// One section of a module or component.
pub struct Section<'a> {
    pub id: u8,
    pub contents: &'a [u8],
}

impl<'a> Section<'a> {
    /// Returns the name and contents of a custom section, `None` for another.
    pub fn custom(&self) -> (custom: Result<Option<(&'a str, &'a [u8])>, Rejection>)
        ensures
            match custom {
                Ok(Some((name, contents))) => custom_of(self.id, self.contents@) == Ok::<
                    Option<(Seq<u8>, Seq<u8>)>,
                    Rejection,
                >(Some((encode_utf8(name@), contents@))),
                Ok(None) => self.id != 0,
                Err(rejection) => custom_of(self.id, self.contents@) == Err::<
                    Option<(Seq<u8>, Seq<u8>)>,
                    Rejection,
                >(rejection),
            },
    {
        if self.id != 0 {
            return Ok(None);
        }
        proof {
            lemma_leb_bounds(self.contents@, 0, 0);
        }
        let (length, start) = match unsigned_leb(self.contents, 0) {
            Ok(number) => number,
            Err(rejection) => return Err(rejection),
        };
        if length > self.contents.len() - start {
            return Err(Rejection::NameOverrun);
        }
        let end: usize = start + length;
        let name = vstd::slice::slice_subrange(self.contents, start, end);
        match utf8_text(name) {
            Some(name) => Ok(Some((name, vstd::slice::slice_subrange(self.contents, end, self.contents.len())))),
            None => Err(Rejection::NameNotText),
        }
    }
}

/// A cursor over the sections behind an eight-byte header.
pub struct Sections<'a> {
    pub bytes: &'a [u8],
    pub position: usize,
}

impl<'a> Sections<'a> {
    /// The cursor stands at a section boundary inside the bytes.
    pub open spec fn wf(&self) -> bool {
        8 <= self.position <= self.bytes@.len()
    }

    /// Starts behind the header of `bytes`.
    pub fn new(bytes: &'a [u8]) -> (sections: Self)
        requires
            bytes@.len() >= 8,
        ensures
            sections.wf(),
            sections.bytes == bytes,
            sections.position == 8,
    {
        Sections { bytes, position: 8 }
    }

    /// Returns the section at the cursor and moves behind it; `None` at the end.
    pub fn next(&mut self) -> (section: Result<Option<Section<'a>>, Rejection>)
        requires
            old(self).wf(),
        ensures
            final(self).wf(),
            final(self).bytes == old(self).bytes,
            match section {
                Ok(Some(section)) => {
                    &&& old(self).position < final(self).position
                    &&& section_at(old(self).bytes@, old(self).position as int) matches Ok((id, start, end))
                    &&& section.id == id
                    &&& 0 <= start <= end
                    &&& section.contents@ == old(self).bytes@.subrange(start, end)
                    &&& section.contents@.len() < old(self).bytes@.len()
                    &&& final(self).position == end
                },
                Ok(None) => final(self).position == old(self).position && old(self).position
                    == old(self).bytes@.len(),
                Err(rejection) => old(self).position < old(self).bytes@.len() && section_at(
                    old(self).bytes@,
                    old(self).position as int,
                ) == Err::<(u8, int, int), Rejection>(rejection) && *final(self) == *old(self),
            },
    {
        if self.position == self.bytes.len() {
            return Ok(None);
        }
        let id: u8 = self.bytes[self.position];
        let (length, start) = match unsigned_leb(self.bytes, self.position + 1) {
            Ok(number) => number,
            Err(rejection) => return Err(rejection),
        };
        if length > self.bytes.len() - start {
            return Err(Rejection::SectionOverrun);
        }
        let end: usize = start + length;
        self.position = end;
        Ok(Some(Section { id, contents: vstd::slice::slice_subrange(self.bytes, start, end) }))
    }
}

/// Returns how many LEB128 bytes encode `value`.
pub fn leb_width(value: usize) -> (width: usize)
    ensures
        width == leb_bytes(value as nat).len(),
        1 <= width <= 10,
{
    let mut rest: usize = value;
    let mut width: usize = 1;
    proof {
        reveal_with_fuel(leb_scale, 11);
        lemma_leb_width(value as nat, 9);
    }
    while rest >= 0x80
        invariant
            1 <= width,
            width - 1 + leb_bytes(rest as nat).len() == leb_bytes(value as nat).len(),
            leb_bytes(value as nat).len() <= 10,
        decreases rest,
    {
        proof {
            reveal_with_fuel(leb_bytes, 2);
            lemma_leb_nonempty(rest as nat / 0x80);
        }
        rest = rest / 0x80;
        width += 1;
    }
    width
}

proof fn lemma_leb_nonempty(value: nat)
    ensures
        leb_bytes(value).len() >= 1,
{
}

/// A number below `128^(count + 1)` takes at most `count + 1` bytes.
pub proof fn lemma_leb_width(value: nat, count: nat)
    requires
        value < leb_scale(count as int + 1),
    ensures
        leb_bytes(value).len() <= count + 1,
    decreases count,
{
    if count > 0 && value >= 0x80 {
        assert(value / 0x80 < leb_scale(count as int));
        lemma_leb_width(value / 0x80, (count - 1) as nat);
    } else if count == 0 {
        reveal_with_fuel(leb_scale, 3);
    }
}

/// Appends the LEB128 bytes of `value` to `output`.
pub fn encode_leb(value: usize, output: &mut Vec<u8>)
    ensures
        final(output)@ == old(output)@ + leb_bytes(value as nat),
{
    let mut rest: usize = value;
    while rest >= 0x80
        invariant
            output@ + leb_bytes(rest as nat) == old(output)@ + leb_bytes(value as nat),
        decreases rest,
    {
        let low: u8 = (rest % 0x80) as u8;
        let ghost before = output@;
        output.push(low + 0x80);
        proof {
            let byte = (rest as nat % 0x80 + 0x80) as u8;
            assert(output@ + leb_bytes(rest as nat / 0x80) =~= before + (seq![byte] + leb_bytes(rest as nat / 0x80)));
        }
        rest = rest / 0x80;
    }
    let ghost before = output@;
    output.push(rest as u8);
    assert(output@ =~= before + seq![rest as nat as u8]);
}

/// Decoding what was encoded gives the number back, wherever it stands.
pub proof fn law_leb_round_trip(prefix: Seq<u8>, value: nat, suffix: Seq<u8>)
    requires
        value <= u32::MAX,
    ensures
        leb_from(prefix + leb_bytes(value) + suffix, prefix.len() as int, 0) == Ok::<(int, int), Rejection>(
            (value as int, (prefix.len() + leb_bytes(value).len()) as int),
        ),
{
    reveal_with_fuel(leb_scale, 6);
    lemma_leb_decodes(prefix, value, suffix, 0);
}

proof fn lemma_leb_decodes(prefix: Seq<u8>, value: nat, suffix: Seq<u8>, index: int)
    requires
        0 <= index <= 4,
        value * leb_scale(index) <= u32::MAX,
    ensures
        leb_from(prefix + leb_bytes(value) + suffix, prefix.len() as int, index) == Ok::<(int, int), Rejection>(
            (value as int, (prefix.len() + leb_bytes(value).len()) as int),
        ),
    decreases value,
{
    let bytes = prefix + leb_bytes(value) + suffix;
    reveal_with_fuel(leb_scale, 6);
    lemma_leb_nonempty(value);
    assert(bytes[prefix.len() as int] == leb_bytes(value)[0]);
    if index == 4 {
        assert(value <= 0x0f) by (nonlinear_arith)
            requires
                value * 0x1000_0000 <= u32::MAX,
        ;
    }
    if value >= 0x80 {
        let byte = (value % 0x80 + 0x80) as u8;
        let rest = value / 0x80;
        assert(bytes =~= (prefix + seq![byte]) + leb_bytes(rest) + suffix);
        assert(rest * leb_scale(index + 1) <= value * leb_scale(index)) by (nonlinear_arith)
            requires
                rest == value / 0x80,
                leb_scale(index + 1) == 0x80 * leb_scale(index),
                leb_scale(index) > 0,
        ;
        lemma_leb_decodes(prefix + seq![byte], rest, suffix, index + 1);
    }
}

/// `count` bytes from `position` on are one LEB128 number of which `index` bytes stand
/// before: all but the last have their high bit set, and the fifth has four bits.
pub open spec fn is_leb(bytes: Seq<u8>, position: int, index: int, count: int) -> bool {
    &&& 0 <= index && 1 <= count && index + count <= 5
    &&& 0 <= position && position + count <= bytes.len()
    &&& forall|i: int| position <= i < position + count - 1 ==> #[trigger] bytes[i] >= 0x80
    &&& bytes[position + count - 1] < 0x80
    &&& index + count == 5 ==> bytes[position + count - 1] <= 0x0f
}

/// What the low seven bits of `count` bytes from `position` on amount to.
pub open spec fn leb_sum(bytes: Seq<u8>, position: int, count: int) -> int
    decreases count,
{
    if count <= 0 {
        0
    } else {
        bytes[position] % 0x80 + 0x80 * leb_sum(bytes, position + 1, count - 1)
    }
}

/// Exactly the numbers of one to five bytes that fit 32 bits are read, as what their low
/// bits amount to; everything else is malformed.
pub proof fn law_leb_numbers(bytes: Seq<u8>, position: int)
    ensures
        leb_from(bytes, position, 0) is Ok <==> exists|count: int| is_leb(bytes, position, 0, count),
        forall|count: int| #[trigger]
            is_leb(bytes, position, 0, count) ==> leb_from(bytes, position, 0) == Ok::<(int, int), Rejection>(
                (leb_sum(bytes, position, count), position + count),
            ) && 0 <= leb_sum(bytes, position, count) <= u32::MAX,
        leb_from(bytes, position, 0) matches Err(rejection) ==> rejection.code_spec() == "MANIFEST_MALFORMED"@,
{
    assert forall|count: int| #[trigger] is_leb(bytes, position, 0, count) implies leb_from(bytes, position, 0) == Ok::<
        (int, int),
        Rejection,
    >((leb_sum(bytes, position, count), position + count)) && 0 <= leb_sum(bytes, position, count) <= u32::MAX by {
        lemma_leb_read(bytes, position, 0, count);
        reveal_with_fuel(leb_sum, 6);
    }
    lemma_leb_found(bytes, position, 0);
    if let Ok((value, next)) = leb_from(bytes, position, 0) {
        assert(is_leb(bytes, position, 0, next - position));
    }
}

proof fn lemma_leb_read(bytes: Seq<u8>, position: int, index: int, count: int)
    requires
        is_leb(bytes, position, index, count),
    ensures
        leb_from(bytes, position, index) == Ok::<(int, int), Rejection>(
            (leb_sum(bytes, position, count), position + count),
        ),
    decreases count,
{
    if count > 1 {
        assert(bytes[position] >= 0x80);
        lemma_leb_read(bytes, position + 1, index + 1, count - 1);
    } else {
        assert(leb_sum(bytes, position + 1, 0) == 0);
    }
}

proof fn lemma_leb_found(bytes: Seq<u8>, position: int, index: int)
    requires
        0 <= index,
    ensures
        leb_from(bytes, position, index) matches Ok((_, next)) ==> is_leb(bytes, position, index, next - position),
        leb_from(bytes, position, index) matches Err(rejection) ==> rejection == Rejection::LengthTruncated || rejection
            == Rejection::LengthOverflow,
    decreases 5 - index,
{
    if 0 <= position < bytes.len() && index < 5 {
        lemma_leb_found(bytes, position + 1, index + 1);
    }
}

/// Every refusal has the code of its family: of the bytes, of the manifest, of the
/// declarations, of the list of actions, and of the world.
pub proof fn law_codes_of_refusals(rejection: Rejection)
    ensures
        ({
            let code = rejection.code_spec();
            &&& rejection is HeaderExpected || rejection is LengthTruncated || rejection is LengthOverflow
                || rejection is SectionOverrun || rejection is NameOverrun || rejection is NameNotText ==> code
                == "MANIFEST_MALFORMED"@
            &&& rejection is ComponentTooLarge || rejection is ManifestTooLarge ==> code == "MANIFEST_TOO_LARGE"@
            &&& rejection is ManifestDuplicated ==> code == "MANIFEST_DUPLICATED"@
            &&& rejection is ManifestAbsent ==> code == "MANIFEST_ABSENT"@
            &&& rejection is AlreadyStamped ==> code == "EXTENSION_ALREADY_STAMPED"@
            &&& rejection is ManifestMismatch ==> code == "EXTENSION_MANIFEST_MISMATCH"@
            &&& rejection is ExtensionDuplicated || rejection is NameDuplicated ==> code == "EXTENSION_PARTS_DUPLICATED"@
            &&& rejection is ExtensionAbsent ==> code == "EXTENSION_PARTS_ABSENT"@
            &&& rejection is ActionListAbsent || rejection is ActionListMismatch ==> code
                == "EXTENSION_ACTION_LIST_INVALID"@
            &&& rejection is WitPackage || rejection is ExportsDiffer || rejection is ExportNotInterface
                || rejection is ExportFunctions || rejection is ImportUnversioned || rejection is ImportUnsupported
                || rejection is ImportInterface ==> code == "MANIFEST_WORLD_INVALID"@
            &&& rejection is NestingInvalid || rejection is NestedHeaderInvalid || rejection is PartsOutOfBounds
                || rejection is NestedLayerInvalid || rejection is StampTooLarge || rejection is TooManySections
                || rejection is DeclarationsTooLarge || rejection is TooManyDeclarations
                || rejection is DeclarationNotObject || rejection is KindRequired || rejection is NameRequired
                || rejection is KindUnknown || rejection is NamedRequired || rejection is EncodingFailed ==> code
                == "EXTENSION_PARTS_INVALID"@
        }),
{
}

} // verus!
